//! The interactive generator's message model: base payload, value sources for
//! single signals, and the payload assembly that drives a frame out.

use vstd::prelude::*;
use vstd::string::*;
use crate::can::frame;
use crate::can::frame::{dlc2len, len2dlc, FrameFlags, MAX_CAN_FD_LEN};
use crate::channel;
use crate::channel::Channel;
use crate::dbc::{SignalInfo, SymbolTable};
use crate::decode;
use crate::sim::ValueSrc;
use crate::text;

verus! {

/// One message that the generator sends.
pub struct TxMsg {
    pub channel: u8,
    pub id: u32,
    pub extended: bool,
    pub name: String,
    /// The database node that transmits this message. Empty when the database
    /// assigns none.
    pub node: String,
    pub len: u8,
    pub data: [u8; 64],
    pub flags: FrameFlags,
    pub data_text: String,
    pub cycle_us: u64,
    pub active: bool,
    pub next_t_us: u64,
    /// Signals whose value is generated over time. Laid over the base payload
    /// when a frame goes out; `data` itself is never rewritten by them.
    pub srcs: Vec<ValueSrc>,
    /// The payload of the last frame that went out, and its length.
    pub last_sent: [u8; 64],
    pub last_len: u8,
}

/// Where the last word of the text begins; the end of a text that ends in
/// whitespace.
pub open spec fn word_start(s: Seq<char>) -> int
    decreases s.len(),
{
    if s.len() == 0 || text::is_white(s.last()) {
        s.len() as int
    } else {
        word_start(s.drop_last())
    }
}

/// The runs of characters between whitespace.
pub open spec fn words(s: Seq<char>) -> Seq<Seq<char>>
    decreases s.len(),
{
    if s.len() == 0 {
        Seq::empty()
    } else if text::is_white(s.last()) {
        words(s.drop_last())
    } else {
        let k = word_start(s);
        if 0 <= k < s.len() {
            words(s.subrange(0, k)).push(s.subrange(k, s.len() as int))
        } else {
            Seq::empty()
        }
    }
}

proof fn lemma_word_start(s: Seq<char>)
    ensures
        0 <= word_start(s) <= s.len(),
        s.len() > 0 && !text::is_white(s.last()) ==> word_start(s) < s.len(),
    decreases s.len(),
{
    if s.len() > 0 && !text::is_white(s.last()) {
        lemma_word_start(s.drop_last());
    }
}

/// A text reads as its words up to the open word, and the open word.
proof fn lemma_words_split(s: Seq<char>)
    ensures
        0 <= word_start(s) <= s.len(),
        words(s) == (if word_start(s) < s.len() {
            words(s.subrange(0, word_start(s))).push(s.subrange(word_start(s), s.len() as int))
        } else {
            words(s.subrange(0, word_start(s)))
        }),
    decreases s.len(),
{
    lemma_word_start(s);
    if s.len() == 0 || text::is_white(s.last()) {
        assert(s.subrange(0, s.len() as int) =~= s);
    }
}

/// Splits a text at whitespace.
pub fn split_words(s: &str) -> (r: Vec<Vec<char>>)
    ensures
        r@.len() == words(s@).len(),
        forall|i: int| 0 <= i < r@.len() ==> (#[trigger] r@[i])@ == words(s@)[i],
{
    let chars: Vec<char> = text::chars_of(s);
    let total: usize = chars.len();
    let mut r: Vec<Vec<char>> = Vec::new();
    let mut open: Vec<char> = Vec::new();
    let ghost mut start: int = 0;
    assert(chars@.subrange(0, 0) =~= Seq::<char>::empty());
    for i in 0..total
        invariant
            total == chars@.len(),
            0 <= start <= i,
            start == word_start(chars@.subrange(0, i as int)),
            open@ == chars@.subrange(start, i as int),
            r@.len() == words(chars@.subrange(0, start)).len(),
            forall|k: int|
                0 <= k < r@.len() ==> (#[trigger] r@[k])@ == words(chars@.subrange(0, start))[k],
    {
        let ghost upto = chars@.subrange(0, i as int);
        let ghost next = chars@.subrange(0, i + 1);
        assert(next.drop_last() =~= upto);
        assert(upto.subrange(0, start) =~= chars@.subrange(0, start));
        assert(upto.subrange(start, i as int) =~= chars@.subrange(start, i as int));
        proof {
            lemma_words_split(upto);
        }
        let c: char = chars[i];
        if text::white(c) {
            if open.len() > 0 {
                r.push(open);
                open = Vec::new();
            }
            proof {
                start = i + 1;
                assert(next.subrange(0, i + 1) =~= next);
                assert(words(next) == words(upto));
            }
            assert(open@ =~= chars@.subrange(i + 1, i + 1));
        } else {
            open.push(c);
            assert(open@ =~= chars@.subrange(start, i + 1));
        }
    }
    assert(chars@.subrange(0, total as int) =~= s@);
    assert(s@.subrange(0, start) =~= chars@.subrange(0, start));
    assert(s@.subrange(start, s@.len() as int) =~= chars@.subrange(start, total as int));
    proof {
        lemma_words_split(s@);
    }
    if open.len() > 0 {
        r.push(open);
    }
    r
}

/// The byte that two (or any number of) hexadecimal digits stand for.
pub open spec fn hex_byte(w: Seq<char>) -> Option<nat> {
    text::unsigned_value(w, 16, 255)
}

/// The bytes that a data box's text stands for: whitespace-separated hex bytes,
/// at least one and at most a frame's worth.
pub open spec fn hex_bytes(s: Seq<char>) -> Option<Seq<u8>> {
    let w = words(s);
    if w.len() == 0 || w.len() > MAX_CAN_FD_LEN || exists|i: int|
        0 <= i < w.len() && hex_byte(#[trigger] w[i]) is None {
        None
    } else {
        Some(Seq::new(w.len(), |i: int| hex_byte(w[i])->0 as u8))
    }
}

/// Whitespace-separated hex bytes, as typed in the generator's data box. `None`
/// on an empty, over-long or non-hex string.
pub fn parse_hex_bytes(s: &str) -> (r: Option<Vec<u8>>)
    ensures
        r is Some == hex_bytes(s@) is Some,
        r is Some ==> (r->0)@ == hex_bytes(s@)->0,
        r is Some ==> 1 <= (r->0)@.len() <= 64,
{
    let toks: Vec<Vec<char>> = split_words(s);
    let ghost w = words(s@);
    if toks.len() == 0 || toks.len() > MAX_CAN_FD_LEN {
        return None;
    }
    let mut out: Vec<u8> = Vec::new();
    let total: usize = toks.len();
    for i in 0..total
        invariant
            total == toks@.len(),
            total == w.len(),
            w == words(s@),
            1 <= total <= 64,
            forall|k: int| 0 <= k < total ==> (#[trigger] toks@[k])@ == w[k],
            out@.len() == i,
            forall|k: int|
                0 <= k < i ==> hex_byte(#[trigger] w[k]) is Some && out@[k] == hex_byte(w[k])->0,
    {
        assert(toks@[i as int]@ == w[i as int]);
        match text::parse_unsigned(toks[i].as_slice(), 16, 255) {
            Some(b) => {
                out.push(b as u8);
            },
            None => {
                assert(hex_byte(w[i as int]) is None);
                return None;
            },
        }
    }
    assert(out@ =~= hex_bytes(s@)->0);
    Some(out)
}

/// The pieces of a payload's text: two hexadecimal digits for each byte.
pub open spec fn byte_texts(data: Seq<u8>, n: int) -> Seq<Seq<char>> {
    Seq::new(n as nat, |i: int| text::hex_padded(data[i] as nat, 2))
}

/// How a payload prints in the data box.
pub open spec fn payload_text(data: Seq<u8>, len: u8) -> Seq<char> {
    text::joined(byte_texts(data, if len <= 64 { len as int } else { 64 }), " "@)
}

/// The payload as hex bytes with single spaces between them.
pub fn hex_text(data: &[u8; 64], len: u8) -> (r: String)
    ensures
        r@ == payload_text(data@, len),
{
    let n: usize = if len <= 64 {
        len as usize
    } else {
        64
    };
    let mut parts: Vec<String> = Vec::new();
    for i in 0..n
        invariant
            n <= 64,
            text::views(parts@) =~= byte_texts(data@, i as int),
    {
        let ghost before = parts@;
        let mut one: String = String::new();
        text::push_hex(&mut one, data[i] as u64, 2);
        assert(one@ =~= text::hex_padded(data@[i as int] as nat, 2));
        parts.push(one);
        assert(text::views(parts@) =~= text::views(before).push(one@));
    }
    text::join(&parts, " ")
}

/// What two digits of a byte's text are, and what they stand for.
proof fn lemma_two_digits(b: u8)
    ensures
        text::hex_padded(b as nat, 2) == seq![
            text::digit_char(b as int / 16),
            text::digit_char(b as int % 16),
        ],
        !text::is_white(text::digit_char(b as int / 16)),
        !text::is_white(text::digit_char(b as int % 16)),
        hex_byte(text::hex_padded(b as nat, 2)) == Some(b as nat),
{
    let n = b as nat;
    let t = text::hex_padded(n, 2);
    let high = text::digit_char(n as int / 16);
    let low = text::digit_char(n as int % 16);
    reveal_with_fuel(text::number_text, 3);
    if n < 16 {
        assert(text::digit_char(0) == '0');
        assert(t =~= seq![high, low]);
    } else {
        assert(n / 16 < 16);
        assert(t =~= seq![high, low]);
    }
    assert(forall|d: int|
        0 <= d < 16 ==> text::digit_value(#[trigger] text::digit_char(d)) == d && !text::is_white(
            text::digit_char(d),
        ) && text::digit_char(d) != '+');
    assert(t.drop_last() =~= seq![high]);
    assert(text::digits_value(seq![high], 16) == Some((n / 16) as nat));
    assert(text::digits_value(t, 16) == Some(((n / 16) * 16 + n % 16) as nat));
}

/// Texts of two characters with single spaces between them are three characters for
/// each but the last, and read as those words.
proof fn lemma_words_of_pairs(parts: Seq<Seq<char>>)
    requires
        parts.len() > 0,
        forall|i: int|
            0 <= i < parts.len() ==> (#[trigger] parts[i]).len() == 2 && !text::is_white(
                parts[i][0],
            ) && !text::is_white(parts[i][1]),
    ensures
        text::joined(parts, " "@).len() == 3 * parts.len() - 1,
        words(text::joined(parts, " "@)) == parts,
    decreases parts.len(),
{
    reveal_strlit(" ");
    reveal_with_fuel(words, 3);
    reveal_with_fuel(word_start, 4);
    let s = text::joined(parts, " "@);
    let end = parts.last();
    if parts.len() == 1 {
        assert(s.drop_last().len() == 1);
        assert(s.drop_last().drop_last().len() == 0);
        assert(word_start(s) == 0);
        assert(s.subrange(0, 0) =~= Seq::<char>::empty());
        assert(s.subrange(0, 2) =~= end);
        assert(words(s) =~= parts);
    } else {
        let before = parts.drop_last();
        lemma_words_of_pairs(before);
        let head = text::joined(before, " "@);
        assert(s =~= head + " "@ + end);
        let k = head.len() + 1;
        assert(s.last() == end[1]);
        assert(s.drop_last().last() == end[0]);
        assert(s.drop_last().drop_last().last() == ' ');
        assert(word_start(s) == k);
        assert(s.subrange(0, k as int).last() == ' ');
        assert(s.subrange(0, k as int).drop_last() =~= head);
        assert(words(s.subrange(0, k as int)) == before);
        assert(s.subrange(k as int, s.len() as int) =~= end);
        assert(words(s) =~= parts);
    }
}

/// A payload's text is two digits for each byte with one space between, and read back
/// it is the payload again.
pub proof fn law_a_payload_reads_back(data: Seq<u8>, len: u8)
    requires
        1 <= len <= 64,
        data.len() == 64,
    ensures
        payload_text(data, len).len() == 3 * len - 1,
        words(payload_text(data, len)) == byte_texts(data, len as int),
        hex_bytes(payload_text(data, len)) == Some(data.subrange(0, len as int)),
{
    let parts = byte_texts(data, len as int);
    assert forall|i: int| 0 <= i < parts.len() implies (#[trigger] parts[i]).len() == 2
        && !text::is_white(parts[i][0]) && !text::is_white(parts[i][1]) && hex_byte(parts[i])
        == Some(data[i] as nat) by {
        lemma_two_digits(data[i]);
    }
    lemma_words_of_pairs(parts);
    assert(hex_bytes(payload_text(data, len))->0 =~= data.subrange(0, len as int));
}

/// Ceiling of the period that the cycle dialog accepts, in milliseconds.
pub const TX_CYCLE_MAX_MS: u64 = 60_000;

/// The period that the cycle dialog's text stands for, in microseconds.
pub open spec fn cycle_in(s: Seq<char>) -> Option<int> {
    match text::unsigned_value(text::trimmed(s), 10, u64::MAX as nat) {
        Some(ms) => if ms <= TX_CYCLE_MAX_MS {
            Some((ms * 1000) as int)
        } else {
            None
        },
        None => None,
    }
}

/// The cycle dialog's draft text as microseconds. Whole milliseconds only, and 0
/// stays meaningful: it is an event-triggered message. Anything that does not
/// read as a period is refused.
pub fn cycle_from_ms_text(s: &str) -> (r: Option<u64>)
    ensures
        r is Some == cycle_in(s@) is Some,
        r is Some ==> r->0 == cycle_in(s@)->0,
{
    let chars: Vec<char> = text::trim_chars(s);
    match text::parse_unsigned(chars.as_slice(), 10, u64::MAX) {
        Some(ms) => if ms <= TX_CYCLE_MAX_MS {
            Some(ms * 1_000)
        } else {
            None
        },
        None => None,
    }
}

/// The bytes a signal needs, at most a frame's worth.
pub open spec fn bytes_needed(s: SignalInfo) -> int {
    if s.start_bit + s.size >= 512 {
        64
    } else {
        (s.start_bit + s.size + 7) / 8
    }
}

fn needed_len(s: &SignalInfo) -> (r: u8)
    ensures
        r == bytes_needed(*s),
        r <= 64,
{
    if s.start_bit >= 512 || s.size >= 512 || s.start_bit + s.size >= 512 {
        64
    } else {
        ((s.start_bit + s.size + 7) / 8) as u8
    }
}

/// The larger of two lengths.
pub open spec fn longer(a: int, b: int) -> int {
    if a >= b {
        a
    } else {
        b
    }
}

/// One source is laid over the payload: its signal's bits are overwritten, or
/// nothing happens where the signal is unknown or the value is not representable.
pub open spec fn is_laid(
    table: SymbolTable,
    id: u32,
    name: Seq<char>,
    raw: Option<u64>,
    before: Seq<u8>,
    after: Seq<u8>,
) -> bool {
    match (table.signal_spec(id, name), raw) {
        (Some(s), Some(v)) => decode::is_packed(
            before,
            after,
            s.start_bit,
            s.size,
            s.big_endian,
            v,
        ),
        _ => after == before,
    }
}

/// The length after one source: a driven signal that reaches past it widens it.
pub open spec fn length_after(
    table: SymbolTable,
    id: u32,
    name: Seq<char>,
    raw: Option<u64>,
    len: int,
) -> int {
    match (table.signal_spec(id, name), raw) {
        (Some(s), Some(v)) => longer(len, bytes_needed(s)),
        _ => len,
    }
}

/// The raw value of a source; nothing where none was given.
pub open spec fn raw_at(raws: Seq<Option<u64>>, i: int) -> Option<u64> {
    if 0 <= i < raws.len() {
        raws[i]
    } else {
        None
    }
}

/// The length after the first `n` sources.
pub open spec fn driven_length(
    table: SymbolTable,
    id: u32,
    srcs: Seq<ValueSrc>,
    raws: Seq<Option<u64>>,
    len: int,
    n: int,
) -> int
    decreases n,
{
    if n <= 0 {
        len
    } else {
        length_after(
            table,
            id,
            srcs[n - 1].name@,
            raw_at(raws, n - 1),
            driven_length(table, id, srcs, raws, len, n - 1),
        )
    }
}

/// `steps` are the payloads as the sources are laid over it one after the other.
pub open spec fn are_steps(
    table: SymbolTable,
    id: u32,
    srcs: Seq<ValueSrc>,
    raws: Seq<Option<u64>>,
    base: Seq<u8>,
    steps: Seq<Seq<u8>>,
) -> bool {
    &&& steps.len() == srcs.len() + 1
    &&& steps[0] == base
    &&& forall|k: int|
        #![trigger srcs[k]]
        0 <= k < srcs.len() ==> is_laid(
            table,
            id,
            srcs[k].name@,
            raw_at(raws, k),
            steps[k],
            steps[k + 1],
        )
}

/// A length snapped to one that a real frame can carry.
pub open spec fn snapped(len: int) -> int {
    if len > 8 {
        frame::dlc_length(frame::dlc_covering(len as u8)) as int
    } else {
        len
    }
}

/// Flags that say CAN FD where the length needs it.
pub open spec fn flagged(flags: FrameFlags, len: int) -> FrameFlags {
    if len > 8 {
        FrameFlags(flags.0 | FrameFlags::fd().0)
    } else {
        flags
    }
}

/// The message's database knows it.
pub open spec fn knows(table: SymbolTable, id: u32) -> bool {
    table.messages@.dom().contains(id)
}

/// The frame contents that go out: the base bytes with every driven signal
/// overwritten, and a length that a real frame can carry.
pub open spec fn is_payload(
    table: Option<SymbolTable>,
    tx: TxMsg,
    raws: Seq<Option<u64>>,
    data: Seq<u8>,
    len: u8,
    flags: FrameFlags,
) -> bool {
    match table {
        Some(t) => if knows(t, tx.id) {
            let reached = driven_length(
                t,
                tx.id,
                tx.srcs@,
                raws,
                tx.len as int,
                tx.srcs@.len() as int,
            );
            &&& exists|steps: Seq<Seq<u8>>|
                #[trigger] are_steps(t, tx.id, tx.srcs@, raws, tx.data@, steps) && data
                    == steps.last()
            &&& len == snapped(reached)
            &&& flags == flagged(tx.flags, reached)
        } else {
            data == tx.data@ && len == tx.len && flags == tx.flags
        },
        None => data == tx.data@ && len == tx.len && flags == tx.flags,
    }
}

/// Payload for one generated frame: the base bytes with every driven signal
/// overwritten by its raw value. `raws` holds the raw value of each source at the
/// frame's instant, or nothing where the value is not representable. Never
/// changes `tx`: a save captures the base, not where the waveform happened to be.
pub fn tx_payload(channels: &Vec<Channel>, tx: &TxMsg, raws: &Vec<Option<u64>>) -> (r: (
    [u8; 64],
    u8,
    FrameFlags,
))
    requires
        tx.len <= 64,
    ensures
        is_payload(channel::table_on(channels@, tx.channel), *tx, raws@, r.0@, r.1, r.2),
        r.1 <= 64,
{
    let mut data: [u8; 64] = tx.data;
    let mut len: u8 = tx.len;
    let mut flags: FrameFlags = tx.flags;
    let table: &SymbolTable = match channel::channel_dbc(channels, tx.channel) {
        Some(t) => t,
        None => {
            return (data, len, flags);
        },
    };
    if !table.has_message(tx.id) {
        return (data, len, flags);
    }
    let ghost mut steps: Seq<Seq<u8>> = seq![tx.data@];
    let total: usize = tx.srcs.len();
    for i in 0..total
        invariant
            total == tx.srcs@.len(),
            len <= 64,
            tx.len <= 64,
            len == driven_length(*table, tx.id, tx.srcs@, raws@, tx.len as int, i as int),
            steps.len() == i + 1,
            steps[0] == tx.data@,
            steps[i as int] == data@,
            forall|k: int|
                #![trigger tx.srcs@[k]]
                0 <= k < i ==> is_laid(
                    *table,
                    tx.id,
                    tx.srcs@[k].name@,
                    raw_at(raws@, k),
                    steps[k],
                    steps[k + 1],
                ),
    {
        let ghost before = steps;
        let ghost was = data@;
        let name: &str = tx.srcs[i].name.as_str();
        let raw: Option<u64> = if i < raws.len() {
            raws[i]
        } else {
            None
        };
        match table.signal(tx.id, name) {
            Some(s) => match raw {
                Some(raw) => {
                    table.encode_signal(tx.id, name, raw, &mut data);
                    let needed: u8 = needed_len(s);
                    if needed > len {
                        len = needed;
                    }
                },
                None => {},
            },
            None => {},
        }
        proof {
            steps = steps.push(data@);
            assert forall|k: int|
                #![trigger tx.srcs@[k]]
                0 <= k < i + 1 implies is_laid(
                *table,
                tx.id,
                tx.srcs@[k].name@,
                raw_at(raws@, k),
                steps[k],
                steps[k + 1],
            ) by {
                if k < i {
                    assert(steps[k] == before[k] && steps[k + 1] == before[k + 1]);
                }
            }
        }
    }
    proof {
        assert(are_steps(*table, tx.id, tx.srcs@, raws@, tx.data@, steps));
    }
    if len > 8 {
        len = dlc2len(len2dlc(len));
        flags = flags.union(FrameFlags::fd());
    }
    (data, len, flags)
}

/// Encodes a raw value into `data` for a signal of a message and widens `len` to
/// fit, snapping lengths past 8 as [`tx_payload`] does. Returns false, leaving
/// everything alone, when the message has no such signal or the value is not
/// representable.
pub fn encode_mirror(
    table: &SymbolTable,
    id: u32,
    name: &str,
    raw: Option<u64>,
    data: &mut [u8; 64],
    len: &mut u8,
    flags: &mut FrameFlags,
) -> (r: bool)
    requires
        *old(len) <= 64,
    ensures
        r == (table.signal_spec(id, name@) is Some && raw is Some),
        is_laid(*table, id, name@, raw, old(data)@, final(data)@),
        r ==> {
            let reached = length_after(*table, id, name@, raw, *old(len) as int);
            *final(len) == snapped(reached) && *final(flags) == flagged(*old(flags), reached)
        },
        !r ==> *final(len) == *old(len) && *final(flags) == *old(flags),
        *final(len) <= 64,
{
    let s: &SignalInfo = match table.signal(id, name) {
        Some(s) => s,
        None => {
            return false;
        },
    };
    let value: u64 = match raw {
        Some(v) => v,
        None => {
            return false;
        },
    };
    table.encode_signal(id, name, value, data);
    let needed: u8 = needed_len(s);
    if needed > *len {
        *len = needed;
    }
    if *len > 8 {
        *len = dlc2len(len2dlc(*len));
        *flags = flags.union(FrameFlags::fd());
    }
    true
}

/// The message with other base bytes: length, FD flag and hex text in step.
pub open spec fn is_based(before: TxMsg, after: TxMsg, data: Seq<u8>, len: u8) -> bool {
    let n: u8 = if len <= 64 {
        len
    } else {
        64
    };
    &&& after.data@ == data
    &&& after.len == n
    &&& after.flags == flagged(before.flags, n as int)
    &&& after.data_text@ == payload_text(data, n)
    &&& after == (TxMsg {
        data: after.data,
        len: after.len,
        flags: after.flags,
        data_text: after.data_text,
        ..before
    })
}

/// Installs base bytes and keeps length, the FD flag and the hex text in step
/// with them.
pub fn set_tx_base(tx: &mut TxMsg, data: [u8; 64], len: u8)
    ensures
        is_based(*old(tx), *final(tx), data@, len),
{
    let n: u8 = if len <= 64 {
        len
    } else {
        64
    };
    tx.data = data;
    tx.len = n;
    if n > 8 {
        tx.flags = tx.flags.union(FrameFlags::fd());
    }
    tx.data_text = hex_text(&data, n);
}

/// The payload with zeros behind its bytes.
pub open spec fn zero_filled(bytes: Seq<u8>) -> Seq<u8> {
    Seq::new(64, |i: int| if i < bytes.len() { bytes[i] } else { 0 })
}

/// Bytes at the head of an otherwise zero payload.
pub fn fill(bytes: &[u8]) -> (data: [u8; 64])
    requires
        bytes@.len() <= 64,
    ensures
        data@ == zero_filled(bytes@),
{
    let mut data: [u8; 64] = [0u8; 64];
    for i in 0..bytes.len()
        invariant
            bytes@.len() <= 64,
            data@.len() == 64,
            forall|k: int| 0 <= k < 64 ==> data@[k] == (if k < i { bytes@[k] } else { 0 }),
    {
        data[i] = bytes[i];
    }
    assert(data@ =~= zero_filled(bytes@));
    data
}

} // verus!
