//! What a FlexRay probe says of the cluster description and of the channels that it
//! drains.

use vstd::prelude::*;
use vstd::string::*;
use crate::fr_db::{FrDb, FrFrameDb};
use crate::text;

verus! {

/// How many channels are drained at most, and how many slots are listed.
pub const DRAINED_MAX: usize = 4;

pub const SLOTS_LISTED: usize = 8;

/// The slot numbers of the first `n` frames.
pub open spec fn slot_texts(frames: Seq<FrFrameDb>, n: int) -> Seq<Seq<char>> {
    Seq::new(n as nat, |i: int| text::decimal(frames[i].triggering.slot_id as int))
}

/// How many slots are listed of so many frames.
pub open spec fn listed_slots(frames: Seq<FrFrameDb>) -> int {
    if frames.len() < SLOTS_LISTED {
        frames.len() as int
    } else {
        SLOTS_LISTED as int
    }
}

/// What a probe says of a cluster description. The cycle and the macrotick come as texts.
pub open spec fn cluster_text(
    path: Seq<char>,
    db: FrDb,
    cycle_ms: Seq<char>,
    macrotick_us: Seq<char>,
) -> Seq<char> {
    let p = db.params;
    "cluster description "@ + path + ":\n  baudrate="@ + text::decimal(p.speed_kbps as int)
        + " kbit/s cycle="@ + cycle_ms + " ms macrotick="@ + macrotick_us + " µs staticSlots="@
        + text::decimal(p.number_of_static_slots as int) + " payloadStatic="@ + text::decimal(
        p.payload_length_static as int,
    ) + " minislots="@ + text::decimal(p.number_of_minislots as int) + "\n  frames: "@
        + text::decimal(db.frames@.len() as int) + " (slots: "@ + text::joined(
        slot_texts(db.frames@, listed_slots(db.frames@)),
        ", "@,
    ) + ")\n"@
}

/// The lines about a cluster description.
pub fn cluster_report(path: &str, db: &FrDb, cycle_ms: &str, macrotick_us: &str) -> (s: String)
    ensures
        s@ == cluster_text(path@, *db, cycle_ms@, macrotick_us@),
{
    let count: usize = if db.frames.len() < SLOTS_LISTED {
        db.frames.len()
    } else {
        SLOTS_LISTED
    };
    let mut slots: Vec<String> = Vec::new();
    assert(text::views(slots@) =~= slot_texts(db.frames@, 0));
    for i in 0..count
        invariant
            count <= db.frames@.len(),
            text::views(slots@) == slot_texts(db.frames@, i as int),
    {
        let mut t: String = String::new();
        text::push_u64(&mut t, db.frames[i].triggering.slot_id as u64);
        assert(t@ =~= text::decimal(db.frames@[i as int].triggering.slot_id as int));
        let ghost held = slots@;
        let ghost shown = t@;
        slots.push(t);
        assert(text::views(slots@) =~= text::views(held).push(shown));
        assert(text::views(slots@) =~= slot_texts(db.frames@, i + 1));
    }
    let mut s: String = "cluster description ".to_owned();
    s.append(path);
    s.append(":\n  baudrate=");
    text::push_u64(&mut s, db.params.speed_kbps as u64);
    s.append(" kbit/s cycle=");
    s.append(cycle_ms);
    s.append(" ms macrotick=");
    s.append(macrotick_us);
    s.append(" µs staticSlots=");
    text::push_u64(&mut s, db.params.number_of_static_slots as u64);
    s.append(" payloadStatic=");
    text::push_u64(&mut s, db.params.payload_length_static as u64);
    s.append(" minislots=");
    text::push_u64(&mut s, db.params.number_of_minislots as u64);
    s.append("\n  frames: ");
    text::push_u64(&mut s, db.frames.len() as u64);
    s.append(" (slots: ");
    s.append(text::join(&slots, ", ").as_str());
    s.append(")\n");
    s
}

/// The channels that are drained: the first ones, so that a machine whose every channel
/// opens does not stall the probe.
pub fn channels_to_drain(usable: &Vec<i32>) -> (r: Vec<i32>)
    ensures
        r@ == usable@.subrange(
            0,
            if usable@.len() < DRAINED_MAX {
                usable@.len() as int
            } else {
                DRAINED_MAX as int
            },
        ),
{
    let mut r: Vec<i32> = Vec::new();
    let count: usize = if usable.len() < DRAINED_MAX {
        usable.len()
    } else {
        DRAINED_MAX
    };
    for i in 0..count
        invariant
            count <= usable@.len(),
            r@ == usable@.subrange(0, i as int),
    {
        r.push(usable[i]);
        assert(r@ =~= usable@.subrange(0, i + 1));
    }
    r
}

/// One frame that a drained channel gave, with the first bytes of its event.
pub struct ProbeFrame {
    pub slot: u16,
    pub cycle: u8,
    pub len: usize,
    pub header_crc: u16,
    pub raw: [u8; 64],
}

/// A byte in lower-case hexadecimal, with two digits.
pub open spec fn byte_text(b: u8) -> Seq<char> {
    if b < 16 {
        "0"@ + text::lower_hex(b as nat)
    } else {
        text::lower_hex(b as nat)
    }
}

fn byte_string(b: u8) -> (s: String)
    ensures
        s@ == byte_text(b),
{
    if b < 16 {
        let mut s: String = "0".to_owned();
        s.append(text::lower_hex_text(b as u64).as_str());
        s
    } else {
        text::lower_hex_text(b as u64)
    }
}

/// The bytes from one place up to another, in brackets.
pub open spec fn bytes_list(raw: Seq<u8>, from: int, to: int) -> Seq<char> {
    "["@ + text::joined(Seq::new((to - from) as nat, |i: int| byte_text(raw[from + i])), ", "@)
        + "]"@
}

fn bytes_of(raw: &[u8; 64], from: usize, to: usize) -> (s: String)
    requires
        from <= to <= 64,
    ensures
        s@ == bytes_list(raw@, from as int, to as int),
{
    let mut parts: Vec<String> = Vec::new();
    let ghost whole = Seq::new((to - from) as nat, |i: int| byte_text(raw@[from + i]));
    assert(text::views(parts@) =~= whole.subrange(0, 0));
    for k in from..to
        invariant
            from <= to <= 64,
            whole == Seq::new((to - from) as nat, |i: int| byte_text(raw@[from + i])),
            text::views(parts@) == whole.subrange(0, k - from),
    {
        let ghost held = parts@;
        parts.push(byte_string(raw[k]));
        assert(text::views(parts@) =~= text::views(held).push(byte_text(raw@[k as int])));
        assert(whole[k - from] == byte_text(raw@[k as int]));
        assert(text::views(parts@) =~= whole.subrange(0, k + 1 - from));
    }
    assert(whole.subrange(0, to - from) =~= whole);
    let mut s: String = "[".to_owned();
    s.append(text::join(&parts, ", ").as_str());
    s.append("]");
    s
}

/// The line of one drained frame.
pub open spec fn frame_line(f: ProbeFrame) -> Seq<char> {
    "  frame slot="@ + text::decimal(f.slot as int) + " cycle="@ + text::decimal(f.cycle as int)
        + " len="@ + text::decimal(f.len as int) + " crc=0x"@ + text::hex_padded(
        f.header_crc as nat,
        4,
    ) + "\n"@
}

/// The raw head of the first event, so that a session on hardware can pin down what the
/// driver leaves undocumented.
pub open spec fn raw_lines(f: ProbeFrame) -> Seq<char> {
    "  first event, raw bytes 0..64 (known: size@0 tag@4 flags@32 headerCRC@34 slot@36 cycle@38 len@39 data@40):\n    "@
        + bytes_list(f.raw@, 0, 32) + "\n    "@ + bytes_list(f.raw@, 32, 64) + "\n"@
}

/// The lines of the first `n` frames.
pub open spec fn frame_lines(frames: Seq<ProbeFrame>, n: int) -> Seq<char>
    decreases n,
{
    if n <= 0 {
        Seq::empty()
    } else {
        frame_lines(frames, n - 1) + frame_line(frames[n - 1]) + if n == 1 {
            raw_lines(frames[0])
        } else {
            Seq::empty()
        }
    }
}

/// What a probe says of one drained channel; a channel may fail to open a second time.
pub open spec fn drain_text(index: i32, drained: Option<Seq<ProbeFrame>>) -> Seq<char> {
    "ch"@ + text::decimal(index as int) + ":\n"@ + match drained {
        None => "  reopened failed (it opened during the scan) -- skipped\n"@,
        Some(frames) => frame_lines(frames, frames.len() as int) + "  drained "@ + text::decimal(
            frames.len() as int,
        ) + " frame(s)\n"@,
    }
}

fn push_frame(s: &mut String, f: &ProbeFrame)
    ensures
        final(s)@ == old(s)@ + frame_line(*f),
{
    s.append("  frame slot=");
    text::push_u64(s, f.slot as u64);
    s.append(" cycle=");
    text::push_u64(s, f.cycle as u64);
    s.append(" len=");
    text::push_u64(s, f.len as u64);
    s.append(" crc=0x");
    text::push_hex(s, f.header_crc as u64, 4);
    s.append("\n");
    assert(s@ =~= old(s)@ + frame_line(*f));
}

fn push_raw(s: &mut String, f: &ProbeFrame)
    ensures
        final(s)@ == old(s)@ + raw_lines(*f),
{
    s.append(
        "  first event, raw bytes 0..64 (known: size@0 tag@4 flags@32 headerCRC@34 slot@36 cycle@38 len@39 data@40):\n    ",
    );
    s.append(bytes_of(&f.raw, 0, 32).as_str());
    s.append("\n    ");
    s.append(bytes_of(&f.raw, 32, 64).as_str());
    s.append("\n");
    assert(s@ =~= old(s)@ + raw_lines(*f));
}

/// The lines about one drained channel.
pub fn drain_report(index: i32, drained: Option<&Vec<ProbeFrame>>) -> (s: String)
    ensures
        s@ == drain_text(
            index,
            match drained {
                Some(frames) => Some(frames@),
                None => None,
            },
        ),
{
    let mut s: String = "ch".to_owned();
    text::push_i64(&mut s, index as i64);
    s.append(":\n");
    let ghost head = s@;
    match drained {
        None => {
            s.append("  reopened failed (it opened during the scan) -- skipped\n");
        },
        Some(frames) => {
            assert(head + frame_lines(frames@, 0) =~= head);
            for i in 0..frames.len()
                invariant
                    s@ == head + frame_lines(frames@, i as int),
            {
                push_frame(&mut s, &frames[i]);
                if i == 0 {
                    push_raw(&mut s, &frames[i]);
                }
                assert(s@ =~= head + frame_lines(frames@, i + 1));
            }
            s.append("  drained ");
            text::push_u64(&mut s, frames.len() as u64);
            s.append(" frame(s)\n");
            assert(s@ =~= head + (frame_lines(frames@, frames@.len() as int) + "  drained "@
                + text::decimal(frames@.len() as int) + " frame(s)\n"@));
        },
    }
    s
}

} // verus!
