//! CAN and CAN FD frames: flags, payload and the data length code.

use vstd::prelude::*;

verus! {

/// Which way a frame travelled.
#[derive(Clone, Copy, Debug, PartialEq, Eq, PartialOrd, Ord, Structural)]
pub enum Direction {
    Rx,
    Tx,
}

/// Maximum CAN FD data payload in bytes.
pub const MAX_CAN_FD_LEN: usize = 64;

/// Bit flags carried alongside a frame: a hand-rolled bitfield, so a further
/// frame kind only adds a bit.
#[derive(Clone, Copy, PartialEq, Eq, Debug, Structural)]
pub struct FrameFlags(pub u32);

impl FrameFlags {
    #[verifier::allow_in_spec]
    pub fn none() -> FrameFlags
        returns
            FrameFlags(0),
    {
        FrameFlags(0)
    }

    /// CAN FD frame (variable payload, data-phase bitrate possible).
    #[verifier::allow_in_spec]
    pub fn fd() -> FrameFlags
        returns
            FrameFlags(1),
    {
        FrameFlags(1)
    }

    /// Bit Rate Switch: the data phase runs at a higher bitrate than arbitration.
    #[verifier::allow_in_spec]
    pub fn brs() -> FrameFlags
        returns
            FrameFlags(2),
    {
        FrameFlags(2)
    }

    /// Error State Indicator (the sender reports error-active or error-passive).
    #[verifier::allow_in_spec]
    pub fn esi() -> FrameFlags
        returns
            FrameFlags(4),
    {
        FrameFlags(4)
    }

    /// CAN error frame (no id, no payload; raised by a node that detects an error).
    #[verifier::allow_in_spec]
    pub fn error() -> FrameFlags
        returns
            FrameFlags(8),
    {
        FrameFlags(8)
    }

    /// Remote transmission request (classic CAN only; requests data by id).
    #[verifier::allow_in_spec]
    pub fn rtr() -> FrameFlags
        returns
            FrameFlags(16),
    {
        FrameFlags(16)
    }

    /// Every bit of `other` is set in `self`.
    pub open spec fn has(self, other: FrameFlags) -> bool {
        self.0 & other.0 == other.0
    }

    pub fn contains(self, other: FrameFlags) -> (r: bool)
        ensures
            r == self.has(other),
    {
        self.0 & other.0 == other.0
    }

    /// Holds exactly the flags of either side.
    pub fn union(self, other: FrameFlags) -> (r: FrameFlags)
        ensures
            r == FrameFlags(self.0 | other.0),
            r.has(self),
            r.has(other),
            forall|bit: u32|
                bit < 32 ==> #[trigger] r.has(FrameFlags(1u32 << bit)) == (self.has(
                    FrameFlags(1u32 << bit),
                ) || other.has(FrameFlags(1u32 << bit))),
    {
        let a: u32 = self.0;
        let b: u32 = other.0;
        assert((a | b) & a == a && (a | b) & b == b) by (bit_vector);
        assert forall|bit: u32| bit < 32 implies ((a | b) & (1u32 << bit) == (1u32 << bit)) == (a
            & (1u32 << bit) == (1u32 << bit) || b & (1u32 << bit) == (1u32 << bit)) by {
            assert(bit < 32 ==> ((a | b) & (1u32 << bit) == (1u32 << bit)) == (a & (1u32 << bit)
                == (1u32 << bit) || b & (1u32 << bit) == (1u32 << bit))) by (bit_vector);
        }
        FrameFlags(a | b)
    }

    /// The frame-type marker that [`FrameFlags::tag`] gives.
    pub open spec fn tag_spec(self) -> Seq<char> {
        if self.has(FrameFlags::error()) {
            "ERR"@
        } else if self.has(FrameFlags::rtr()) {
            "RTR"@
        } else if !self.has(FrameFlags::fd()) {
            ""@
        } else {
            match (self.has(FrameFlags::brs()), self.has(FrameFlags::esi())) {
                (false, false) => "FD"@,
                (true, false) => "FD·B"@,
                (false, true) => "FD·E"@,
                (true, true) => "FD·BE"@,
            }
        }
    }

    /// Compact frame-type marker for the UI: "" for classic data, "FD" (with
    /// "·B" for BRS and "·E" for ESI) for CAN FD, plus "ERR" and "RTR" for the
    /// two non-data kinds. Error and RTR are mutually exclusive with FD because
    /// CAN FD dropped RTR and reports errors separately.
    pub fn tag(self) -> (r: &'static str)
        ensures
            r@ == self.tag_spec(),
    {
        if self.contains(FrameFlags::error()) {
            return "ERR";
        }
        if self.contains(FrameFlags::rtr()) {
            return "RTR";
        }
        if !self.contains(FrameFlags::fd()) {
            return "";
        }
        match (self.contains(FrameFlags::brs()), self.contains(FrameFlags::esi())) {
            (false, false) => "FD",
            (true, false) => "FD·B",
            (false, true) => "FD·E",
            (true, true) => "FD·BE",
        }
    }
}

impl Default for FrameFlags {
    fn default() -> (r: FrameFlags)
        ensures
            r == FrameFlags::none(),
    {
        FrameFlags::none()
    }
}

#[derive(Clone, Copy, Debug)]
pub struct CanFrame {
    pub t_us: u64,
    pub channel: u8,
    pub id: u32,
    pub extended: bool,
    /// Actual number of valid data bytes (0..=64). This is the source of
    /// truth; the on-wire DLC code is derived via [`CanFrame::dlc_code`].
    pub len: u8,
    /// A fixed 64-byte buffer keeps the frame `Copy`. Only the first `len`
    /// bytes are meaningful.
    pub data: [u8; MAX_CAN_FD_LEN],
    pub dir: Direction,
    pub flags: FrameFlags,
}

impl CanFrame {
    /// The length names bytes that the buffer has.
    pub open spec fn wf(self) -> bool {
        self.len <= MAX_CAN_FD_LEN
    }

    /// Error and remote frames carry no data, whatever `len` says.
    pub open spec fn carries_data(self) -> bool {
        !self.flags.has(FrameFlags::error()) && !self.flags.has(FrameFlags::rtr())
    }

    /// The data bytes of the frame.
    pub open spec fn payload_spec(self) -> Seq<u8> {
        if self.carries_data() {
            self.data@.subrange(0, self.len as int)
        } else {
            Seq::<u8>::empty()
        }
    }

    pub fn is_fd(&self) -> (r: bool)
        ensures
            r == self.flags.has(FrameFlags::fd()),
    {
        self.flags.contains(FrameFlags::fd())
    }

    pub fn brs(&self) -> (r: bool)
        ensures
            r == self.flags.has(FrameFlags::brs()),
    {
        self.flags.contains(FrameFlags::brs())
    }

    pub fn esi(&self) -> (r: bool)
        ensures
            r == self.flags.has(FrameFlags::esi()),
    {
        self.flags.contains(FrameFlags::esi())
    }

    pub fn is_error(&self) -> (r: bool)
        ensures
            r == self.flags.has(FrameFlags::error()),
    {
        self.flags.contains(FrameFlags::error())
    }

    pub fn is_remote(&self) -> (r: bool)
        ensures
            r == self.flags.has(FrameFlags::rtr()),
    {
        self.flags.contains(FrameFlags::rtr())
    }

    /// The meaningful data slice (`data[..len]`). Error and remote frames never
    /// carry data: they give an empty slice, so that no caller has to tell them
    /// apart.
    pub fn payload(&self) -> (r: &[u8])
        requires
            self.carries_data() ==> self.wf(),
        ensures
            r@ == self.payload_spec(),
    {
        let whole: &[u8] = self.data.as_slice();
        if self.is_error() || self.is_remote() {
            return vstd::slice::slice_subrange(whole, 0, 0);
        }
        vstd::slice::slice_subrange(whole, 0, self.len as usize)
    }

    /// The CAN DLC code (0..=15) for this frame's byte length.
    pub fn dlc_code(&self) -> (r: u8)
        ensures
            r == dlc_covering(self.len),
    {
        len2dlc(self.len)
    }
}

/// Payload length in bytes that a data length code stands for.
pub open spec fn dlc_length(code: u8) -> u8 {
    if code <= 8 {
        code
    } else if code == 9 {
        12
    } else if code == 10 {
        16
    } else if code == 11 {
        20
    } else if code == 12 {
        24
    } else if code == 13 {
        32
    } else if code == 14 {
        48
    } else {
        64
    }
}

/// `code` is the least of the sixteen codes whose length covers `len`.
pub open spec fn is_least_covering(code: u8, len: u8) -> bool {
    &&& code <= 15
    &&& dlc_length(code) >= len
    &&& forall|c: u8| c < code ==> #[trigger] dlc_length(c) < len
}

/// The least code whose length covers `len`; the last one where none does.
pub open spec fn dlc_covering(len: u8) -> u8 {
    if len <= 64 {
        choose|code: u8| is_least_covering(code, len)
    } else {
        15
    }
}

proof fn lemma_covering(len: u8, code: u8)
    requires
        len <= 64,
        is_least_covering(code, len),
    ensures
        dlc_covering(len) == code,
{
    let d = dlc_covering(len);
    assert(is_least_covering(d, len));
    if d < code {
        assert(dlc_length(d) < len);
    }
    if code < d {
        assert(dlc_length(code) < len);
    }
}

/// DLC code (0..=15) to payload length in bytes. Codes 9..=15 map to the fixed
/// CAN FD lengths.
pub fn dlc2len(code: u8) -> (r: u8)
    ensures
        r == dlc_length(code),
{
    match code {
        0..=8 => code,
        9 => 12,
        10 => 16,
        11 => 20,
        12 => 24,
        13 => 32,
        14 => 48,
        _ => 64,
    }
}

/// Payload length in bytes to the smallest DLC code whose length covers it
/// (rounds up to the next valid CAN FD length).
pub fn len2dlc(len: u8) -> (r: u8)
    ensures
        r == dlc_covering(len),
        len <= 64 ==> is_least_covering(r, len),
{
    let r: u8 = match len {
        0..=8 => len,
        9..=12 => 9,
        13..=16 => 10,
        17..=20 => 11,
        21..=24 => 12,
        25..=32 => 13,
        33..=48 => 14,
        _ => 15,
    };
    proof {
        if len <= 64 {
            assert(is_least_covering(r, len));
            lemma_covering(len, r);
        }
    }
    r
}

/// Every length that a frame can carry fits the length of its code.
pub proof fn law_dlc_covers(len: u8)
    requires
        len <= 64,
    ensures
        dlc_covering(len) <= 15,
        dlc_length(dlc_covering(len)) >= len,
{
    lemma_least_code(len);
}

/// A code's own length maps back to that code.
pub proof fn law_dlc_round_trip(code: u8)
    requires
        code <= 15,
    ensures
        dlc_covering(dlc_length(code)) == code,
{
    assert(is_least_covering(code, dlc_length(code)));
    lemma_covering(dlc_length(code), code);
}

/// A longer payload never has a smaller code.
pub proof fn law_dlc_monotone(a: u8, b: u8)
    requires
        a <= b <= 64,
    ensures
        dlc_covering(a) <= dlc_covering(b),
{
    lemma_least_code(a);
    lemma_least_code(b);
    if dlc_covering(b) < dlc_covering(a) {
        assert(dlc_length(dlc_covering(b)) < a);
    }
}

proof fn lemma_least_code(len: u8)
    requires
        len <= 64,
    ensures
        is_least_covering(dlc_covering(len), len),
{
    let r: u8 = if len <= 8 {
        len
    } else if len <= 12 {
        9
    } else if len <= 16 {
        10
    } else if len <= 20 {
        11
    } else if len <= 24 {
        12
    } else if len <= 32 {
        13
    } else if len <= 48 {
        14
    } else {
        15
    };
    assert(is_least_covering(r, len));
    lemma_covering(len, r);
}

/// A flag is there where its bit is.
pub proof fn law_flags_are_read_by_their_bits(flags: u32, bit: u32)
    requires
        bit < 32,
    ensures
        FrameFlags(flags).has(FrameFlags(1u32 << bit)) == ((flags >> bit) % 2 == 1),
{
    assert((flags & (1u32 << bit) == (1u32 << bit)) == ((flags >> bit) % 2 == 1)) by (bit_vector)
        requires
            bit < 32,
    ;
}

/// A data frame's payload is its first bytes, as many as its length says; an error frame
/// and a remote frame have none.
pub proof fn law_a_payload_is_the_first_bytes(f: CanFrame, i: int)
    requires
        f.wf(),
    ensures
        ({
            let data = !f.flags.has(FrameFlags(8)) && !f.flags.has(FrameFlags(16));
            &&& f.payload_spec().len() == (if data {
                f.len as int
            } else {
                0
            })
            &&& data && 0 <= i < f.len ==> f.payload_spec()[i] == f.data@[i]
        }),
{
}

/// The lengths of the codes: up to eight bytes one by one, then in steps of four up to 24,
/// then in steps of sixteen. A greater code never stands for a shorter frame.
pub proof fn law_code_lengths_grow(code: u8)
    requires
        code <= 15,
    ensures
        code <= 8 ==> dlc_length(code) == code,
        9 <= code <= 12 ==> dlc_length(code) == 4 * (code - 6),
        13 <= code ==> dlc_length(code) == 16 * (code - 11),
        code > 0 ==> dlc_length((code - 1) as u8) < dlc_length(code),
{
}

/// A code is the tightest for its length: the next smaller one is too short.
pub proof fn law_codes_are_tight(len: u8)
    requires
        0 < len <= 64,
    ensures
        dlc_length(dlc_covering(len)) >= len,
        dlc_covering(len) > 0,
        dlc_length((dlc_covering(len) - 1) as u8) < len,
        len <= 8 ==> dlc_length(dlc_covering(len)) == len,
{
    lemma_least_code(len);
    let c = dlc_covering(len);
    assert(c > 0);
    assert(dlc_length((c - 1) as u8) < len);
    if len <= 8 {
        law_dlc_round_trip(len);
    }
}

} // verus!
