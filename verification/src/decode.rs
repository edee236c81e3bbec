//! Raw signal values inside a payload: reading and writing bit fields in Intel
//! and Motorola order, and the integer side of the physical conversion.

use vstd::prelude::*;

verus! {

/// Bit `i` of a raw value.
pub open spec fn bit_of(raw: u64, i: u64) -> bool {
    (raw >> i) & 1 == 1
}

/// Bit `pos` of a payload, counted from the least significant bit of byte 0. A
/// position past the payload reads as 0.
pub open spec fn payload_bit(data: Seq<u8>, pos: int) -> bool {
    0 <= pos / 8 < data.len() && (data[pos / 8] >> ((pos % 8) as u8)) & 1 == 1
}

/// Motorola signals are walked from the most significant bit of a byte down and
/// then on to the next byte: the index of `pos` on that walk.
pub open spec fn msb_index(pos: int) -> int {
    8 * (pos / 8) + (7 - pos % 8)
}

/// The payload position of bit `i` of the raw value (0 is the least significant
/// one). Intel: the start bit is the least significant one, and positions
/// ascend. Motorola: the start bit is the most significant one, and the signal
/// follows the walk of [`msb_index`].
pub open spec fn signal_pos(start_bit: int, size: int, big_endian: bool, i: int) -> int {
    if big_endian {
        // `msb_index` is its own inverse.
        msb_index(msb_index(start_bit) + (size - 1 - i))
    } else {
        start_bit + i
    }
}

/// Sizes that name a field at all.
pub open spec fn size_ok(size: u64) -> bool {
    0 < size <= 64
}

/// `raw` is the value of the field: bit by bit what the payload holds there,
/// and 0 above the field.
pub open spec fn is_field(
    data: Seq<u8>,
    start_bit: u64,
    size: u64,
    big_endian: bool,
    raw: u64,
) -> bool {
    forall|i: u64|
        i < 64 ==> #[trigger] bit_of(raw, i) == (size_ok(size) && i < size && payload_bit(
            data,
            signal_pos(start_bit as int, size as int, big_endian, i as int),
        ))
}

/// The value of the field.
pub open spec fn field_value(data: Seq<u8>, start_bit: u64, size: u64, big_endian: bool) -> u64 {
    choose|raw: u64| is_field(data, start_bit, size, big_endian, raw)
}

/// Position `pos` belongs to the field.
pub open spec fn in_field(start_bit: u64, size: u64, big_endian: bool, pos: int) -> bool {
    size_ok(size) && exists|i: u64|
        #![trigger signal_pos(start_bit as int, size as int, big_endian, i as int)]
        i < size && pos == signal_pos(start_bit as int, size as int, big_endian, i as int)
}

/// `after` is `before` with the field set to `raw`: inside the field bit by bit
/// the raw value's, outside it unchanged.
pub open spec fn is_packed(
    before: Seq<u8>,
    after: Seq<u8>,
    start_bit: u64,
    size: u64,
    big_endian: bool,
    raw: u64,
) -> bool {
    &&& after.len() == before.len()
    &&& forall|pos: int|
        0 <= pos < 8 * before.len() && !in_field(start_bit, size, big_endian, pos)
            ==> #[trigger] payload_bit(after, pos) == payload_bit(before, pos)
    &&& size_ok(size) ==> forall|i: u64|
        #![trigger signal_pos(start_bit as int, size as int, big_endian, i as int)]
        i < size && 0 <= signal_pos(start_bit as int, size as int, big_endian, i as int) < 8
            * before.len() ==> payload_bit(
            after,
            signal_pos(start_bit as int, size as int, big_endian, i as int),
        ) == bit_of(raw, i)
}

/// Two raw values with the same bits are the same value.
pub proof fn law_bits_determine(a: u64, b: u64)
    requires
        forall|i: u64| i < 64 ==> #[trigger] bit_of(a, i) == bit_of(b, i),
    ensures
        a == b,
{
    lemma_low_bits_equal(a, b, 64);
    assert(a << 0 == a && b << 0 == b) by (bit_vector);
}

/// Values with the same bits agree on their lowest `n` bits.
proof fn lemma_low_bits_equal(a: u64, b: u64, n: u64)
    requires
        0 < n <= 64,
        forall|i: u64| i < 64 ==> #[trigger] bit_of(a, i) == bit_of(b, i),
    ensures
        a << ((64 - n) as u64) == b << ((64 - n) as u64),
    decreases n,
{
    let m: u64 = (n - 1) as u64;
    let up: u64 = (64 - n) as u64;
    assert(bit_of(a, m) == bit_of(b, m));
    if m == 0 {
        assert(((a >> 0) & 1 == 1) == ((b >> 0) & 1 == 1) ==> a << 63 == b << 63) by (bit_vector);
    } else {
        lemma_low_bits_equal(a, b, m);
        let above: u64 = (64 - m) as u64;
        assert(a << up == b << up) by (bit_vector)
            requires
                0 < m < 64,
                up == 63 - m,
                above == 64 - m,
                a << above == b << above,
                ((a >> m) & 1 == 1) == ((b >> m) & 1 == 1),
        ;
    }
}

/// Distinct bits of a field sit at distinct positions.
pub proof fn law_positions_distinct(start_bit: u64, size: u64, big_endian: bool, i: u64, j: u64)
    requires
        signal_pos(start_bit as int, size as int, big_endian, i as int) == signal_pos(
            start_bit as int,
            size as int,
            big_endian,
            j as int,
        ),
    ensures
        i == j,
{
}

/// A value read back from a field that fits the payload is the packed value cut
/// to the field's width.
pub proof fn law_pack_then_extract(
    before: Seq<u8>,
    after: Seq<u8>,
    start_bit: u64,
    size: u64,
    big_endian: bool,
    raw: u64,
    read: u64,
)
    requires
        size_ok(size),
        forall|i: u64|
            #![trigger signal_pos(start_bit as int, size as int, big_endian, i as int)]
            i < size ==> signal_pos(start_bit as int, size as int, big_endian, i as int) < 8
                * before.len(),
        is_packed(before, after, start_bit, size, big_endian, raw),
        is_field(after, start_bit, size, big_endian, read),
    ensures
        read == raw & low_mask(size),
{
    let cut: u64 = raw & low_mask(size);
    assert forall|i: u64| i < 64 implies #[trigger] bit_of(read, i) == bit_of(cut, i) by {
        lemma_mask_bit(raw, size, i);
        if i < size {
            lemma_pos_nonneg(start_bit, size, big_endian, i);
            assert(payload_bit(
                after,
                signal_pos(start_bit as int, size as int, big_endian, i as int),
            ) == bit_of(raw, i));
        }
    }
    law_bits_determine(read, cut);
}

/// What was packed into a field that fits the payload is the field's value, cut to the
/// field's width.
pub proof fn law_a_packed_field_holds_its_value(
    before: Seq<u8>,
    after: Seq<u8>,
    start_bit: u64,
    size: u64,
    big_endian: bool,
    raw: u64,
)
    requires
        size_ok(size),
        forall|i: u64|
            #![trigger signal_pos(start_bit as int, size as int, big_endian, i as int)]
            i < size ==> signal_pos(start_bit as int, size as int, big_endian, i as int) < 8
                * before.len(),
        is_packed(before, after, start_bit, size, big_endian, raw),
    ensures
        field_value(after, start_bit, size, big_endian) == raw & low_mask(size),
{
    let cut: u64 = raw & low_mask(size);
    assert forall|i: u64| i < 64 implies #[trigger] bit_of(cut, i) == (i < size && payload_bit(
        after,
        signal_pos(start_bit as int, size as int, big_endian, i as int),
    )) by {
        lemma_mask_bit(raw, size, i);
        if i < size {
            lemma_pos_nonneg(start_bit, size, big_endian, i);
        }
    }
    assert(is_field(after, start_bit, size, big_endian, cut));
    law_pack_then_extract(
        before,
        after,
        start_bit,
        size,
        big_endian,
        raw,
        field_value(after, start_bit, size, big_endian),
    );
}

/// Packing back what was read from a field leaves every bit of the payload.
pub proof fn law_extract_then_pack(
    before: Seq<u8>,
    after: Seq<u8>,
    start_bit: u64,
    size: u64,
    big_endian: bool,
    read: u64,
)
    requires
        is_field(before, start_bit, size, big_endian, read),
        is_packed(before, after, start_bit, size, big_endian, read),
    ensures
        forall|pos: int|
            0 <= pos < 8 * before.len() ==> #[trigger] payload_bit(after, pos) == payload_bit(
                before,
                pos,
            ),
{
    assert forall|pos: int| 0 <= pos < 8 * before.len() implies #[trigger] payload_bit(after, pos)
        == payload_bit(before, pos) by {
        if in_field(start_bit, size, big_endian, pos) {
            let i = choose|i: u64|
                #![trigger signal_pos(start_bit as int, size as int, big_endian, i as int)]
                i < size && pos == signal_pos(start_bit as int, size as int, big_endian, i as int);
            assert(bit_of(read, i) == payload_bit(before, pos));
        }
    }
}

/// A field that shares no position with the packed one reads as before.
pub proof fn law_disjoint_field_unchanged(
    before: Seq<u8>,
    after: Seq<u8>,
    start_bit: u64,
    size: u64,
    big_endian: bool,
    raw: u64,
    other_start: u64,
    other_size: u64,
    other_big_endian: bool,
    read_before: u64,
    read_after: u64,
)
    requires
        is_packed(before, after, start_bit, size, big_endian, raw),
        is_field(before, other_start, other_size, other_big_endian, read_before),
        is_field(after, other_start, other_size, other_big_endian, read_after),
        forall|pos: int|
            #[trigger] in_field(other_start, other_size, other_big_endian, pos) ==> !in_field(
                start_bit,
                size,
                big_endian,
                pos,
            ),
    ensures
        read_before == read_after,
{
    assert forall|i: u64| i < 64 implies #[trigger] bit_of(read_before, i) == bit_of(
        read_after,
        i,
    ) by {
        if size_ok(other_size) && i < other_size {
            let pos = signal_pos(
                other_start as int,
                other_size as int,
                other_big_endian,
                i as int,
            );
            lemma_pos_nonneg(other_start, other_size, other_big_endian, i);
            assert(in_field(other_start, other_size, other_big_endian, pos));
            if pos < 8 * before.len() {
                assert(payload_bit(after, pos) == payload_bit(before, pos));
            }
        }
    }
    law_bits_determine(read_before, read_after);
}

proof fn lemma_pos_nonneg(start_bit: u64, size: u64, big_endian: bool, i: u64)
    requires
        i < size <= 64,
    ensures
        0 <= signal_pos(start_bit as int, size as int, big_endian, i as int) <= u64::MAX + 64,
{
}

/// The lowest `size` bits set.
pub open spec fn low_mask(size: u64) -> u64 {
    if size >= 64 {
        u64::MAX
    } else {
        ((1u64 << size) - 1) as u64
    }
}

proof fn lemma_mask_bit(raw: u64, size: u64, i: u64)
    requires
        i < 64,
        size <= 64,
    ensures
        bit_of(raw & low_mask(size), i) == (i < size && bit_of(raw, i)),
{
    if size == 64 {
        assert(raw & 0xffff_ffff_ffff_ffff == raw) by (bit_vector);
    } else {
        assert(((raw & ((1u64 << size) - 1) as u64) >> i) & 1 == 1 <==> i < size && (raw >> i) & 1
            == 1) by (bit_vector)
            requires
                i < 64,
                size < 64,
        ;
    }
}

/// The payload position of bit `i` of a field.
fn position(start_bit: u64, size: u64, big_endian: bool, i: u64) -> (pos: u128)
    requires
        i < size <= 64,
    ensures
        pos == signal_pos(start_bit as int, size as int, big_endian, i as int),
        pos <= u64::MAX + 64,
{
    proof {
        lemma_pos_nonneg(start_bit, size, big_endian, i);
    }
    if big_endian {
        let start: u128 = start_bit as u128;
        let walked: u128 = 8 * (start / 8) + (7 - start % 8) + (size - 1 - i) as u128;
        8 * (walked / 8) + (7 - walked % 8)
    } else {
        start_bit as u128 + i as u128
    }
}

fn read_bit(data: &[u8], pos: u128) -> (on: bool)
    ensures
        on == payload_bit(data@, pos as int),
{
    let byte: u128 = pos / 8;
    byte < data.len() as u128 && (data[byte as usize] >> ((pos % 8) as u8)) & 1 == 1
}

fn write_bit(data: &mut [u8], pos: u128, on: bool)
    ensures
        final(data)@.len() == old(data)@.len(),
        forall|q: int|
            0 <= q < 8 * old(data)@.len() ==> #[trigger] payload_bit(final(data)@, q) == (if q
                == pos {
                on
            } else {
                payload_bit(old(data)@, q)
            }),
{
    let byte: u128 = pos / 8;
    if byte < data.len() as u128 {
        let b: usize = byte as usize;
        let k: u8 = (pos % 8) as u8;
        let v: u8 = data[b];
        let mask: u8 = 1u8 << k;
        let w: u8 = if on { v | mask } else { v & !mask };
        data[b] = w;
        proof {
            assert forall|q: int| 0 <= q < 8 * old(data)@.len() implies #[trigger] payload_bit(
                data@,
                q,
            ) == (if q == pos { on } else { payload_bit(old(data)@, q) }) by {
                let j: u8 = (q % 8) as u8;
                assert(((v | (1u8 << k)) >> j) & 1 == 1 <==> (v >> j) & 1 == 1 || j == k)
                    by (bit_vector)
                    requires
                        k < 8,
                        j < 8,
                ;
                assert(((v & !(1u8 << k)) >> j) & 1 == 1 <==> (v >> j) & 1 == 1 && j != k)
                    by (bit_vector)
                    requires
                        k < 8,
                        j < 8,
                ;
            }
        }
    }
}

/// Reads the raw value of a field. A size of 0 or above 64 names no field and
/// reads as 0, and so does every bit that the payload does not have.
pub fn extract_raw(data: &[u8], start_bit: u64, size: u64, big_endian: bool) -> (raw: u64)
    ensures
        raw == field_value(data@, start_bit, size, big_endian),
        is_field(data@, start_bit, size, big_endian, raw),
{
    let mut raw: u64 = 0;
    assert forall|j: u64| j < 64 implies !#[trigger] bit_of(raw, j) by {
        assert((0u64 >> j) & 1 != 1) by (bit_vector);
    }
    if size == 0 || size > 64 {
        proof {
            lemma_field_unique(data@, start_bit, size, big_endian, raw);
        }
        return 0;
    }
    for i in 0..size
        invariant
            size_ok(size),
            forall|j: u64|
                j < 64 ==> #[trigger] bit_of(raw, j) == (j < i && payload_bit(
                    data@,
                    signal_pos(start_bit as int, size as int, big_endian, j as int),
                )),
    {
        let pos: u128 = position(start_bit, size, big_endian, i);
        if read_bit(data, pos) {
            let ghost before: u64 = raw;
            raw = raw | (1u64 << i);
            assert forall|j: u64| j < 64 implies #[trigger] bit_of(raw, j) == (bit_of(before, j)
                || j == i) by {
                assert(((before | (1u64 << i)) >> j) & 1 == 1 <==> (before >> j) & 1 == 1 || j == i)
                    by (bit_vector)
                    requires
                        i < 64,
                        j < 64,
                ;
            }
        }
    }
    proof {
        lemma_field_unique(data@, start_bit, size, big_endian, raw);
    }
    raw
}

/// A value with the field's bits is the value of the field.
pub proof fn lemma_field_unique(
    data: Seq<u8>,
    start_bit: u64,
    size: u64,
    big_endian: bool,
    raw: u64,
)
    requires
        is_field(data, start_bit, size, big_endian, raw),
    ensures
        raw == field_value(data, start_bit, size, big_endian),
{
    let other = field_value(data, start_bit, size, big_endian);
    assert(is_field(data, start_bit, size, big_endian, other));
    assert forall|i: u64| i < 64 implies #[trigger] bit_of(raw, i) == bit_of(other, i) by {}
    law_bits_determine(raw, other);
}

/// Writes the raw value into a field, leaving every other bit alone. A size of
/// 0 or above 64 names no field and changes nothing; bits that the payload does
/// not have are skipped.
pub fn pack_raw(data: &mut [u8], start_bit: u64, size: u64, big_endian: bool, raw: u64)
    ensures
        is_packed(old(data)@, final(data)@, start_bit, size, big_endian, raw),
{
    if size == 0 || size > 64 {
        return;
    }
    let ghost before: Seq<u8> = data@;
    for i in 0..size
        invariant
            size_ok(size),
            before == old(data)@,
            data@.len() == before.len(),
            forall|j: u64|
                #![trigger signal_pos(start_bit as int, size as int, big_endian, j as int)]
                j < i && 0 <= signal_pos(start_bit as int, size as int, big_endian, j as int) < 8
                    * before.len() ==> payload_bit(
                    data@,
                    signal_pos(start_bit as int, size as int, big_endian, j as int),
                ) == bit_of(raw, j),
            forall|pos: int|
                0 <= pos < 8 * before.len() && !in_field(start_bit, size, big_endian, pos)
                    ==> #[trigger] payload_bit(data@, pos) == payload_bit(before, pos),
    {
        let pos: u128 = position(start_bit, size, big_endian, i);
        let ghost prior: Seq<u8> = data@;
        write_bit(data, pos, (raw >> i) & 1 == 1);
        proof {
            assert(in_field(start_bit, size, big_endian, pos as int));
            assert forall|j: u64|
                #![trigger signal_pos(start_bit as int, size as int, big_endian, j as int)]
                j <= i && 0 <= signal_pos(start_bit as int, size as int, big_endian, j as int) < 8
                    * before.len() implies payload_bit(
                data@,
                signal_pos(start_bit as int, size as int, big_endian, j as int),
            ) == bit_of(raw, j) by {
                let at = signal_pos(start_bit as int, size as int, big_endian, j as int);
                if j < i {
                    if at == pos {
                        law_positions_distinct(start_bit, size, big_endian, i, j);
                    }
                    assert(payload_bit(data@, at) == payload_bit(prior, at));
                }
            }
        }
    }
}

/// The integer that a raw value of `size` bits stands for: two's complement for
/// a signed signal of 1 to 64 bits, else the raw value itself.
pub open spec fn raw_integer(raw: u64, size: u64, signed: bool) -> int {
    if signed && size_ok(size) {
        let cut = (raw & low_mask(size)) as int;
        if bit_of(raw, (size - 1) as u64) {
            cut - (low_mask(size) + 1)
        } else {
            cut
        }
    } else {
        raw as int
    }
}

/// The least integer that a field of `size` bits can hold.
pub open spec fn width_min(size: u64, signed: bool) -> int {
    if signed {
        -(low_mask((size - 1) as u64) + 1)
    } else {
        0
    }
}

/// The greatest integer that a field of `size` bits can hold.
pub open spec fn width_max(size: u64, signed: bool) -> int {
    if signed {
        low_mask((size - 1) as u64) as int
    } else {
        low_mask(size) as int
    }
}

/// `v` moved to the nearer end of `min..=max` where it lies outside.
pub open spec fn clamped(v: int, min: int, max: int) -> int {
    if v < min {
        min
    } else if v > max {
        max
    } else {
        v
    }
}

/// The two's complement pattern of `v` in `size` bits, for a `v` that fits them.
pub open spec fn twos_complement(v: int, size: u64) -> int {
    if v < 0 {
        v + low_mask(size) + 1
    } else {
        v
    }
}

fn mask_of(size: u64) -> (mask: u64)
    ensures
        mask == low_mask(size),
{
    if size >= 64 {
        u64::MAX
    } else {
        assert(1u64 << size >= 1) by (bit_vector)
            requires
                size < 64,
        ;
        (1u64 << size) - 1
    }
}

/// The integer that a raw value stands for, before scaling to physical units.
pub fn signed_value(raw: u64, size: u64, signed: bool) -> (v: i128)
    ensures
        v == raw_integer(raw, size, signed),
        -0x8000_0000_0000_0000 <= v <= u64::MAX,
{
    proof {
        lemma_signed_range(raw, size);
    }
    if signed && size > 0 && size <= 64 {
        let mask: u64 = mask_of(size);
        let cut: u64 = raw & mask;
        if (raw >> (size - 1)) & 1 == 1 {
            cut as i128 - (mask as i128 + 1)
        } else {
            cut as i128
        }
    } else {
        raw as i128
    }
}

proof fn lemma_signed_range(raw: u64, size: u64)
    ensures
        size_ok(size) && bit_of(raw, (size - 1) as u64) ==> (raw & low_mask(size)) - low_mask(size)
            - 1 >= -0x8000_0000_0000_0000,
{
    if size_ok(size) {
        let m: u64 = (size - 1) as u64;
        if size == 64 {
            assert(raw & 0xffff_ffff_ffff_ffff == raw && ((raw >> 63) & 1 == 1 ==> raw
                >= 0x8000_0000_0000_0000)) by (bit_vector);
        } else {
            lemma_mask_bounds(size);
        }
    }
}

/// The raw value that a field takes for the integer `v`: `v` clamped to what the
/// field can hold, as a two's complement pattern of its width. A size of 0 or of
/// 64 and more does not clamp.
pub fn fit_to_width(v: i64, size: u64, signed: bool) -> (raw: u64)
    ensures
        size == 0 || size >= 64 ==> raw == twos_complement(v as int, 64),
        0 < size < 64 ==> raw == twos_complement(
            clamped(v as int, width_min(size, signed), width_max(size, signed)),
            size,
        ),
{
    if size == 0 || size >= 64 {
        return if v < 0 { u64::MAX - ((-(v + 1)) as u64) } else { v as u64 };
    }
    let mask: u64 = mask_of(size);
    let top: u64 = if signed { mask_of(size - 1) } else { mask };
    proof {
        lemma_mask_bounds(size);
        if signed {
            lemma_mask_bounds((size - 1) as u64);
        }
    }
    let max: i64 = top as i64;
    let min: i64 = if signed { -max - 1 } else { 0 };
    let c: i64 = if v < min { min } else if v > max { max } else { v };
    if c < 0 {
        proof {
            lemma_mask_step(size);
        }
        mask - ((-(c + 1)) as u64)
    } else {
        c as u64
    }
}

proof fn lemma_mask_bounds(size: u64)
    requires
        size < 64,
    ensures
        low_mask(size) <= i64::MAX,
{
    assert(1u64 << size <= 0x8000_0000_0000_0000 && 1u64 << size >= 1) by (bit_vector)
        requires
            size < 64,
    ;
}

/// One bit more doubles what a field can tell apart.
proof fn lemma_mask_step(size: u64)
    requires
        0 < size < 64,
    ensures
        low_mask(size) == 2 * low_mask((size - 1) as u64) + 1,
{
    let m: u64 = (size - 1) as u64;
    assert(1u64 << size == 2 * (1u64 << m) && 1u64 << m >= 1) by (bit_vector)
        requires
            size == m + 1,
            m < 63,
    ;
}

/// A value that was fitted into a field reads back as the clamped value.
pub proof fn law_fit_reads_back(v: i64, size: u64, signed: bool, raw: u64)
    requires
        0 < size < 64,
        raw == twos_complement(
            clamped(v as int, width_min(size, signed), width_max(size, signed)),
            size,
        ),
    ensures
        raw_integer(raw, size, signed) == clamped(
            v as int,
            width_min(size, signed),
            width_max(size, signed),
        ),
{
    let c = clamped(v as int, width_min(size, signed), width_max(size, signed));
    let m: u64 = (size - 1) as u64;
    let mask: u64 = low_mask(size);
    lemma_mask_bounds(size);
    lemma_mask_bounds(m);
    lemma_mask_step(size);
    if signed {
        let half: u64 = low_mask(m);
        assert(raw <= mask);
        assert(1u64 << size >= 1 && 1u64 << m >= 1) by (bit_vector)
            requires
                size < 64,
                m < 64,
        ;
        assert(raw & mask == raw && ((raw >> m) & 1 == 1 <==> raw > half)) by (bit_vector)
            requires
                size == m + 1,
                m < 63,
                half == (1u64 << m) - 1,
                mask == (1u64 << size) - 1,
                raw <= mask,
        ;
    }
}

/// The distance between neighbouring doubles at an integer of magnitude `n`: 1
/// up to 2^53, and doubling with every further power of two.
pub open spec fn double_step(n: nat) -> nat
    decreases n,
{
    if n < 0x20_0000_0000_0000 {
        1
    } else {
        2 * double_step(n / 2)
    }
}

/// The double nearest to `n`, halves going to the even one.
pub open spec fn nearest_double(n: nat) -> nat {
    let step = double_step(n);
    let whole = n / step;
    let rest = n % step;
    if 2 * rest > step || (2 * rest == step && whole % 2 == 1) {
        step * (whole + 1)
    } else {
        step * whole
    }
}

/// What an integer reads as after a passage through a double and back into 64
/// signed bits, where it saturates.
pub open spec fn through_double(v: int) -> int {
    let rounded = if v < 0 {
        -(nearest_double((-v) as nat) as int)
    } else {
        nearest_double(v as nat) as int
    };
    clamped(rounded, i64::MIN as int, i64::MAX as int)
}

fn round_to_double(n: u64) -> (r: u128)
    ensures
        r == nearest_double(n as nat),
{
    let mut step: u64 = 1;
    let mut m: u64 = n;
    while m >= 0x20_0000_0000_0000
        invariant
            step >= 1,
            step <= 4096,
            m as int * step as int <= n as int,
            double_step(n as nat) == step * double_step(m as nat),
        decreases m,
    {
        assert(step <= 2048) by (nonlinear_arith)
            requires
                m as int * step as int <= n as int,
                m >= 0x20_0000_0000_0000u64,
                n <= 0xffff_ffff_ffff_ffffu64,
        ;
        assert((m / 2) as int * (2 * step) as int <= m as int * step as int) by (nonlinear_arith)
            requires
                step >= 1,
        ;
        assert(step * (2 * double_step((m / 2) as nat)) == (2 * step) * double_step(
            (m / 2) as nat,
        )) by (nonlinear_arith);
        m = m / 2;
        step = step * 2;
    }
    assert(double_step(n as nat) == step) by (nonlinear_arith)
        requires
            double_step(n as nat) == step * double_step(m as nat),
            double_step(m as nat) == 1,
    ;
    let whole: u64 = n / step;
    let rest: u64 = n % step;
    assert(rest < step) by (nonlinear_arith)
        requires
            step >= 1,
            rest == n % step,
    ;
    assert(step as int * (whole as int + 1) <= 4096 * 0x1_0000_0000_0000_0000) by (nonlinear_arith)
        requires
            step <= 4096,
            whole <= 0xffff_ffff_ffff_ffffu64,
    ;
    assert(step as int * whole as int <= step as int * (whole as int + 1)) by (nonlinear_arith)
        requires
            step >= 1,
    ;
    if 2 * rest > step || (2 * rest == step && whole % 2 == 1) {
        step as u128 * (whole as u128 + 1)
    } else {
        step as u128 * whole as u128
    }
}

/// The integer as it reads after a passage through a double.
pub fn read_through_double(v: i128) -> (r: i64)
    requires
        -0x8000_0000_0000_0000 <= v <= u64::MAX,
    ensures
        r == through_double(v as int),
{
    if v < 0 {
        let m: u128 = round_to_double((-v) as u64);
        if m >= 0x8000_0000_0000_0000 {
            i64::MIN
        } else {
            -(m as i64)
        }
    } else {
        let m: u128 = round_to_double(v as u64);
        if m > 0x7fff_ffff_ffff_ffff {
            i64::MAX
        } else {
            m as i64
        }
    }
}

/// Integers of up to 53 bits pass through a double unchanged.
pub proof fn law_small_integers_exact(v: int)
    requires
        -0x20_0000_0000_0000 < v < 0x20_0000_0000_0000,
    ensures
        through_double(v) == v,
{
    let n: nat = if v < 0 {
        (-v) as nat
    } else {
        v as nat
    };
    assert(double_step(n) == 1);
    assert(nearest_double(n) == n);
}

} // verus!
