//! What bit fields mean in plain arithmetic: how a field's value is made up of the bits
//! along its walk, and what packing, widths and signs do to it.

use vstd::arithmetic::power2::pow2;
use vstd::prelude::*;
use crate::decode;

verus! {

/// The place after `s` on the walk of a Motorola field: down in the byte, and from its
/// lowest bit on to the highest one of the next byte.
pub open spec fn motorola_next(s: int) -> int {
    if s % 8 == 0 {
        s + 15
    } else {
        s - 1
    }
}

/// The bit of a payload at a place, as a number. Past the payload there are zeros.
pub open spec fn bit_at(data: Seq<u8>, s: int) -> int {
    if 0 <= s < 8 * data.len() {
        (data[s / 8] as int / pow2((s % 8) as nat) as int) % 2
    } else {
        0
    }
}

proof fn lemma_raw_bit(raw: u64, i: u64)
    requires
        i < 64,
    ensures
        decode::bit_of(raw, i) == ((raw as int / pow2(i as nat) as int) % 2 == 1),
        (raw as int / pow2(i as nat) as int) % 2 == 0 || (raw as int / pow2(i as nat) as int) % 2
            == 1,
{
    vstd::bits::lemma_u64_shr_is_div(raw, i);
    let q: u64 = raw >> i;
    assert(q & 1 == q % 2) by (bit_vector);
}

proof fn lemma_payload_bit(data: Seq<u8>, s: int)
    requires
        0 <= s,
    ensures
        decode::payload_bit(data, s) == (bit_at(data, s) == 1),
        bit_at(data, s) == 0 || bit_at(data, s) == 1,
{
    if s < 8 * data.len() {
        let v: u8 = data[s / 8];
        let k: u8 = (s % 8) as u8;
        vstd::bits::lemma_u8_shr_is_div(v, k);
        let q: u8 = v >> k;
        assert(q & 1 == q % 2) by (bit_vector);
    }
}

/// The value whose lowest `n` bits are those of the field.
spec fn gathered(data: Seq<u8>, start_bit: u64, size: u64, big_endian: bool, n: nat) -> int
    decreases n,
{
    if n == 0 {
        0
    } else {
        let i = n - 1;
        gathered(data, start_bit, size, big_endian, i as nat) + (if decode::payload_bit(
            data,
            decode::signal_pos(start_bit as int, size as int, big_endian, i),
        ) {
            pow2(i as nat) as int
        } else {
            0
        })
    }
}

/// Adding a power of two above a value sets one bit and leaves the others.
proof fn lemma_add_bit(v: int, n: nat, j: nat)
    requires
        0 <= v < pow2(n),
    ensures
        0 <= v + pow2(n) < pow2(n + 1),
        ((v + pow2(n)) / pow2(j) as int) % 2 == (if j == n {
            1
        } else {
            (v / pow2(j) as int) % 2
        }),
        j >= n ==> (v / pow2(j) as int) % 2 == 0,
{
    vstd::arithmetic::power2::lemma_pow2_unfold(n + 1);
    vstd::arithmetic::power2::lemma_pow2_pos(n);
    vstd::arithmetic::power2::lemma_pow2_pos(j);
    let p = pow2(j) as int;
    if j < n {
        let d = (n - j) as nat;
        vstd::arithmetic::power2::lemma_pow2_adds(j, d);
        vstd::arithmetic::power2::lemma_pow2_unfold(d);
        let half = pow2((d - 1) as nat) as int;
        assert(pow2(n) == p * pow2(d));
        assert((v + p * (2 * half)) / p == v / p + 2 * half) by (nonlinear_arith)
            requires
                p > 0,
        ;
        assert(p * pow2(d) == p * (2 * half));
        assert((v / p + 2 * half) % 2 == (v / p) % 2) by (nonlinear_arith);
    } else if j == n {
        assert((v + p) / p == 1) by (nonlinear_arith)
            requires
                0 <= v < p,
        ;
        assert(v / p == 0) by (nonlinear_arith)
            requires
                0 <= v < p,
        ;
    } else {
        let d = (j - n) as nat;
        vstd::arithmetic::power2::lemma_pow2_adds(n, d);
        vstd::arithmetic::power2::lemma_pow2_unfold(d);
        vstd::arithmetic::power2::lemma_pow2_pos((d - 1) as nat);
        assert(p >= 2 * pow2(n)) by (nonlinear_arith)
            requires
                p == pow2(n) * pow2(d),
                pow2(d) == 2 * pow2((d - 1) as nat),
                pow2((d - 1) as nat) >= 1,
                pow2(n) >= 1,
        ;
        assert((v + pow2(n)) / p == 0 && v / p == 0) by (nonlinear_arith)
            requires
                0 <= v,
                v + pow2(n) < p,
                pow2(n) >= 1,
        ;
    }
}

proof fn lemma_gathered(
    data: Seq<u8>,
    start_bit: u64,
    size: u64,
    big_endian: bool,
    n: nat,
    j: nat,
)
    ensures
        0 <= gathered(data, start_bit, size, big_endian, n) < pow2(n),
        ((gathered(data, start_bit, size, big_endian, n) / pow2(j) as int) % 2 == 1) == (j < n
            && decode::payload_bit(
            data,
            decode::signal_pos(start_bit as int, size as int, big_endian, j as int),
        )),
    decreases n,
{
    vstd::arithmetic::power2::lemma_pow2_pos(j);
    if n == 0 {
        vstd::arithmetic::power2::lemma2_to64();
        assert(0int / pow2(j) as int == 0) by (nonlinear_arith)
            requires
                pow2(j) > 0,
        ;
    } else {
        let m = (n - 1) as nat;
        let v = gathered(data, start_bit, size, big_endian, m);
        lemma_gathered(data, start_bit, size, big_endian, m, j);
        lemma_add_bit(v, m, j);
        vstd::arithmetic::power2::lemma_pow2_unfold(n);
    }
}

/// A field's value is what its bits add up to.
proof fn lemma_value(data: Seq<u8>, start_bit: u64, size: u64, big_endian: bool)
    requires
        0 < size <= 64,
    ensures
        decode::field_value(data, start_bit, size, big_endian) == gathered(
            data,
            start_bit,
            size,
            big_endian,
            size as nat,
        ),
        decode::field_value(data, start_bit, size, big_endian) < pow2(size as nat),
{
    let g = gathered(data, start_bit, size, big_endian, size as nat);
    lemma_gathered(data, start_bit, size, big_endian, size as nat, 0);
    vstd::arithmetic::power2::lemma2_to64();
    vstd::arithmetic::power2::lemma2_to64_rest();
    if size < 64 {
        vstd::arithmetic::power2::lemma_pow2_strictly_increases(size as nat, 64);
    }
    let raw = g as u64;
    assert(raw == g);
    assert forall|i: u64| i < 64 implies #[trigger] decode::bit_of(raw, i) == (decode::size_ok(size)
        && i < size && decode::payload_bit(
        data,
        decode::signal_pos(start_bit as int, size as int, big_endian, i as int),
    )) by {
        lemma_raw_bit(raw, i);
        lemma_gathered(data, start_bit, size, big_endian, size as nat, i as nat);
    }
    decode::lemma_field_unique(data, start_bit, size, big_endian, raw);
}

/// A field of one bit reads that bit.
pub proof fn law_one_bit_reads_itself(data: Seq<u8>, start_bit: u64, big_endian: bool)
    ensures
        decode::field_value(data, start_bit, 1, big_endian) == bit_at(data, start_bit as int),
{
    lemma_value(data, start_bit, 1, big_endian);
    reveal_with_fuel(gathered, 2);
    vstd::arithmetic::power2::lemma2_to64();
    lemma_payload_bit(data, start_bit as int);
}

/// One place further on the walk.
proof fn lemma_walk_step(s: int, size: int, i: int)
    requires
        0 <= s,
    ensures
        decode::signal_pos(s, size, true, i) == decode::signal_pos(
            motorola_next(s),
            size - 1,
            true,
            i,
        ),
{
    let a = s / 8;
    let r = s % 8;
    if r == 0 {
        assert((s + 15) / 8 == a + 1 && (s + 15) % 8 == 7);
    } else {
        assert((s - 1) / 8 == a && (s - 1) % 8 == r - 1);
    }
    assert(decode::msb_index(motorola_next(s)) == decode::msb_index(s) + 1);
}

proof fn lemma_gathered_motorola(data: Seq<u8>, start_bit: u64, next: u64, size: u64, n: nat)
    requires
        1 < size <= 64,
        next == motorola_next(start_bit as int),
        n < size,
    ensures
        gathered(data, start_bit, size, true, n) == gathered(
            data,
            next,
            (size - 1) as u64,
            true,
            n,
        ),
    decreases n,
{
    if n > 0 {
        lemma_gathered_motorola(data, start_bit, next, size, (n - 1) as nat);
        lemma_walk_step(start_bit as int, size as int, n - 1);
    }
}

/// A Motorola field starts with its highest bit. The rest of it is the field that starts
/// at the next place of the walk.
pub proof fn law_motorola_fields_start_high(data: Seq<u8>, start_bit: u64, size: u64)
    requires
        1 < size <= 64,
        start_bit + 15 <= u64::MAX,
    ensures
        decode::field_value(data, start_bit, size, true) == pow2((size - 1) as nat) * bit_at(
            data,
            start_bit as int,
        ) + decode::field_value(
            data,
            motorola_next(start_bit as int) as u64,
            (size - 1) as u64,
            true,
        ),
{
    let next = motorola_next(start_bit as int) as u64;
    lemma_value(data, start_bit, size, true);
    lemma_value(data, next, (size - 1) as u64, true);
    lemma_gathered_motorola(data, start_bit, next, size, (size - 1) as nat);
    lemma_payload_bit(data, start_bit as int);
    let p = pow2((size - 1) as nat) as int;
    assert(p * 1 == p && p * 0 == 0);
}

proof fn lemma_gathered_intel(data: Seq<u8>, start_bit: u64, size: u64, n: nat)
    requires
        1 < size <= 64,
        start_bit < u64::MAX,
        n < size,
    ensures
        gathered(data, start_bit, size, false, n + 1) == bit_at(data, start_bit as int) + 2
            * gathered(data, (start_bit + 1) as u64, (size - 1) as u64, false, n),
    decreases n,
{
    lemma_payload_bit(data, start_bit as int);
    if n == 0 {
        reveal_with_fuel(gathered, 2);
        vstd::arithmetic::power2::lemma2_to64();
    } else {
        lemma_gathered_intel(data, start_bit, size, (n - 1) as nat);
        vstd::arithmetic::power2::lemma_pow2_unfold(n);
    }
}

/// An Intel field starts with its lowest bit. The rest of it is the field that starts at
/// the next place.
pub proof fn law_intel_fields_start_low(data: Seq<u8>, start_bit: u64, size: u64)
    requires
        1 < size <= 64,
        start_bit < u64::MAX,
    ensures
        decode::field_value(data, start_bit, size, false) == bit_at(data, start_bit as int) + 2
            * decode::field_value(data, (start_bit + 1) as u64, (size - 1) as u64, false),
{
    lemma_value(data, start_bit, size, false);
    lemma_value(data, (start_bit + 1) as u64, (size - 1) as u64, false);
    lemma_gathered_intel(data, start_bit, size, (size - 1) as nat);
}

/// A field never reads more than its bits can tell apart, and a size that names no field
/// reads nothing.
pub proof fn law_fields_stay_in_their_width(
    data: Seq<u8>,
    start_bit: u64,
    size: u64,
    big_endian: bool,
)
    ensures
        0 < size <= 64 ==> decode::field_value(data, start_bit, size, big_endian) < pow2(
            size as nat,
        ),
        size == 0 || size > 64 ==> decode::field_value(data, start_bit, size, big_endian) == 0,
{
    if 0 < size <= 64 {
        lemma_value(data, start_bit, size, big_endian);
    } else {
        assert forall|i: u64| i < 64 implies !#[trigger] decode::bit_of(0, i) by {
            assert((0u64 >> i) & 1 != 1) by (bit_vector);
        }
        decode::lemma_field_unique(data, start_bit, size, big_endian, 0);
    }
}

/// `n` bytes as one number, the first byte counting most.
pub open spec fn high_first(data: Seq<u8>, from: int, n: nat) -> int
    decreases n,
{
    if n == 0 {
        0
    } else {
        256 * high_first(data, from, (n - 1) as nat) + data[from + n - 1]
    }
}

/// `n` bytes as one number, the last byte counting most.
pub open spec fn low_first(data: Seq<u8>, from: int, n: nat) -> int
    decreases n,
{
    if n == 0 {
        0
    } else {
        data[from] + 256 * low_first(data, from + 1, (n - 1) as nat)
    }
}

proof fn lemma_bit_in_byte(data: Seq<u8>, k: int, j: int)
    requires
        0 <= k < data.len(),
        0 <= j < 8,
    ensures
        bit_at(data, 8 * k + j) == (data[k] as int / pow2(j as nat) as int) % 2,
{
    let s = 8 * k + j;
    assert(s / 8 == k && s % 8 == j);
}

/// A byte is what its bits add up to.
proof fn lemma_byte(data: Seq<u8>, k: int)
    requires
        0 <= k < data.len(),
    ensures
        data[k] == bit_at(data, 8 * k) + 2 * bit_at(data, 8 * k + 1) + 4 * bit_at(data, 8 * k + 2)
            + 8 * bit_at(data, 8 * k + 3) + 16 * bit_at(data, 8 * k + 4) + 32 * bit_at(
            data,
            8 * k + 5,
        ) + 64 * bit_at(data, 8 * k + 6) + 128 * bit_at(data, 8 * k + 7),
{
    vstd::arithmetic::power2::lemma2_to64();
    lemma_bit_in_byte(data, k, 0);
    lemma_bit_in_byte(data, k, 1);
    lemma_bit_in_byte(data, k, 2);
    lemma_bit_in_byte(data, k, 3);
    lemma_bit_in_byte(data, k, 4);
    lemma_bit_in_byte(data, k, 5);
    lemma_bit_in_byte(data, k, 6);
    lemma_bit_in_byte(data, k, 7);
    let v: u8 = data[k];
    assert(v == v % 2 + 2 * ((v / 2) % 2) + 4 * ((v / 4) % 2) + 8 * ((v / 8) % 2) + 16 * ((v / 16)
        % 2) + 32 * ((v / 32) % 2) + 64 * ((v / 64) % 2) + 128 * ((v / 128) % 2)) by (bit_vector);
    vstd::arithmetic::div_mod::lemma_div_basics(v as int);
}

/// The part of a Motorola field from a place on; nothing where no bits are left.
spec fn motorola_rest(data: Seq<u8>, s: int, n: nat) -> int
    decreases n,
{
    if n == 0 {
        0
    } else {
        pow2((n - 1) as nat) * bit_at(data, s) + motorola_rest(
            data,
            motorola_next(s),
            (n - 1) as nat,
        )
    }
}

proof fn lemma_motorola_rest(data: Seq<u8>, start_bit: u64, size: u64)
    requires
        0 < size <= 64,
        start_bit <= 1_000_000 - 15 * size,
    ensures
        decode::field_value(data, start_bit, size, true) == motorola_rest(
            data,
            start_bit as int,
            size as nat,
        ),
    decreases size,
{
    vstd::arithmetic::power2::lemma2_to64();
    if size == 1 {
        law_one_bit_reads_itself(data, start_bit, true);
        assert(motorola_rest(data, motorola_next(start_bit as int), 0) == 0);
        let b = bit_at(data, start_bit as int);
        assert(pow2(0) * b == b) by (nonlinear_arith)
            requires
                pow2(0) == 1,
        ;
    } else {
        law_motorola_fields_start_high(data, start_bit, size);
        lemma_motorola_rest(
            data,
            motorola_next(start_bit as int) as u64,
            (size - 1) as u64,
        );
    }
}

/// One place of the walk inside a byte.
proof fn lemma_motorola_take(data: Seq<u8>, k: int, j: int, n: nat)
    requires
        0 <= k,
        0 <= j < 8,
        n > 0,
    ensures
        motorola_rest(data, 8 * k + j, n) == pow2((n - 1) as nat) * bit_at(data, 8 * k + j)
            + motorola_rest(
            data,
            if j == 0 {
                8 * k + 15
            } else {
                8 * k + j - 1
            },
            (n - 1) as nat,
        ),
{
    assert((8 * k + j) % 8 == j);
}

/// Weights that double, from the lowest bit of a byte to the highest.
proof fn lemma_weights(p: int, b: Seq<int>)
    requires
        b.len() == 8,
    ensures
        p * (b[0] + 2 * b[1] + 4 * b[2] + 8 * b[3] + 16 * b[4] + 32 * b[5] + 64 * b[6] + 128 * b[7])
            == p * b[0] + (2 * p) * b[1] + (4 * p) * b[2] + (8 * p) * b[3] + (16 * p) * b[4] + (32
            * p) * b[5] + (64 * p) * b[6] + (128 * p) * b[7],
{
    lemma_spread(
        p,
        b[0],
        2 * b[1] + 4 * b[2] + 8 * b[3] + 16 * b[4] + 32 * b[5] + 64 * b[6] + 128 * b[7],
    );
    lemma_spread(p, 2 * b[1], 4 * b[2] + 8 * b[3] + 16 * b[4] + 32 * b[5] + 64 * b[6] + 128 * b[7]);
    lemma_spread(p, 4 * b[2], 8 * b[3] + 16 * b[4] + 32 * b[5] + 64 * b[6] + 128 * b[7]);
    lemma_spread(p, 8 * b[3], 16 * b[4] + 32 * b[5] + 64 * b[6] + 128 * b[7]);
    lemma_spread(p, 16 * b[4], 32 * b[5] + 64 * b[6] + 128 * b[7]);
    lemma_spread(p, 32 * b[5], 64 * b[6] + 128 * b[7]);
    lemma_spread(p, 64 * b[6], 128 * b[7]);
    lemma_regroup(2, p, b[1]);
    lemma_regroup(4, p, b[2]);
    lemma_regroup(8, p, b[3]);
    lemma_regroup(16, p, b[4]);
    lemma_regroup(32, p, b[5]);
    lemma_regroup(64, p, b[6]);
    lemma_regroup(128, p, b[7]);
}

/// The eight powers of two from `m` on.
proof fn lemma_doubling(m: nat)
    ensures
        pow2(m + 1) == 2 * pow2(m),
        pow2(m + 2) == 4 * pow2(m),
        pow2(m + 3) == 8 * pow2(m),
        pow2(m + 4) == 16 * pow2(m),
        pow2(m + 5) == 32 * pow2(m),
        pow2(m + 6) == 64 * pow2(m),
        pow2(m + 7) == 128 * pow2(m),
{
    vstd::arithmetic::power2::lemma_pow2_unfold(m + 1);
    vstd::arithmetic::power2::lemma_pow2_unfold(m + 2);
    vstd::arithmetic::power2::lemma_pow2_unfold(m + 3);
    vstd::arithmetic::power2::lemma_pow2_unfold(m + 4);
    vstd::arithmetic::power2::lemma_pow2_unfold(m + 5);
    vstd::arithmetic::power2::lemma_pow2_unfold(m + 6);
    vstd::arithmetic::power2::lemma_pow2_unfold(m + 7);
}

/// Eight bits from the top of a byte are the byte.
proof fn lemma_motorola_byte(data: Seq<u8>, k: int, n: nat)
    requires
        0 <= k < data.len(),
        n >= 8,
    ensures
        motorola_rest(data, 8 * k + 7, n) == pow2((n - 8) as nat) * data[k] + motorola_rest(
            data,
            8 * k + 15,
            (n - 8) as nat,
        ),
{
    let m = (n - 8) as nat;
    let b = Seq::new(8, |j: int| bit_at(data, 8 * k + j));
    lemma_byte(data, k);
    lemma_doubling(m);
    lemma_weights(pow2(m) as int, b);
    lemma_motorola_take(data, k, 7, m + 8);
    lemma_motorola_take(data, k, 6, m + 7);
    lemma_motorola_take(data, k, 5, m + 6);
    lemma_motorola_take(data, k, 4, m + 5);
    lemma_motorola_take(data, k, 3, m + 4);
    lemma_motorola_take(data, k, 2, m + 3);
    lemma_motorola_take(data, k, 1, m + 2);
    lemma_motorola_take(data, k, 0, m + 1);
}

proof fn lemma_spread(p: int, a: int, b: int)
    ensures
        p * (a + b) == p * a + p * b,
{
    assert(p * (a + b) == p * a + p * b) by (nonlinear_arith);
}

proof fn lemma_regroup(c: int, p: int, b: int)
    ensures
        (c * p) * b == p * (c * b),
{
    assert((c * p) * b == p * (c * b)) by (nonlinear_arith);
}

proof fn lemma_motorola_bytes(data: Seq<u8>, from: int, n: nat)
    requires
        0 <= from,
        from + n <= data.len(),
    ensures
        motorola_rest(data, 8 * from + 7, 8 * n) == high_first(data, from, n),
    decreases n,
{
    if n > 0 {
        lemma_motorola_byte(data, from, 8 * n);
        lemma_motorola_bytes(data, from + 1, (n - 1) as nat);
        lemma_high_first(data, from, n);
    }
}

/// The first byte counts most.
proof fn lemma_high_first(data: Seq<u8>, from: int, n: nat)
    requires
        n > 0,
    ensures
        high_first(data, from, n) == pow2((8 * n - 8) as nat) * data[from] + high_first(
            data,
            from + 1,
            (n - 1) as nat,
        ),
    decreases n,
{
    vstd::arithmetic::power2::lemma2_to64();
    if n == 1 {
        reveal_with_fuel(high_first, 2);
        let d = data[from] as int;
        assert(pow2(0) * d == d) by (nonlinear_arith)
            requires
                pow2(0) == 1,
        ;
    } else {
        let m = (n - 1) as nat;
        lemma_high_first(data, from, m);
        vstd::arithmetic::power2::lemma_pow2_adds(8, (8 * m - 8) as nat);
        let p = pow2((8 * m - 8) as nat) as int;
        let d = data[from] as int;
        assert(256 * (p * d) == (256 * p) * d) by (nonlinear_arith);
    }
}

/// A Motorola field of whole bytes is those bytes in their order, the first one counting
/// most.
pub proof fn law_motorola_bytes_read_in_order(data: Seq<u8>, from: u64, n: u64)
    requires
        0 < n <= 8,
        from + n <= data.len(),
        from <= 10_000,
    ensures
        decode::field_value(data, (8 * from + 7) as u64, (8 * n) as u64, true) == high_first(
            data,
            from as int,
            n as nat,
        ),
{
    lemma_motorola_rest(data, (8 * from + 7) as u64, (8 * n) as u64);
    lemma_motorola_bytes(data, from as int, n as nat);
}

/// The part of an Intel field from a place on; nothing where no bits are left.
spec fn intel_rest(data: Seq<u8>, s: int, n: nat) -> int
    decreases n,
{
    if n == 0 {
        0
    } else {
        bit_at(data, s) + 2 * intel_rest(data, s + 1, (n - 1) as nat)
    }
}

proof fn lemma_intel_rest(data: Seq<u8>, start_bit: u64, size: u64)
    requires
        0 < size <= 64,
        start_bit + size <= u64::MAX,
    ensures
        decode::field_value(data, start_bit, size, false) == intel_rest(
            data,
            start_bit as int,
            size as nat,
        ),
    decreases size,
{
    if size == 1 {
        law_one_bit_reads_itself(data, start_bit, false);
        assert(intel_rest(data, start_bit + 1, 0) == 0);
    } else {
        law_intel_fields_start_low(data, start_bit, size);
        lemma_intel_rest(data, (start_bit + 1) as u64, (size - 1) as u64);
    }
}

proof fn lemma_intel_bytes(data: Seq<u8>, from: int, n: nat)
    requires
        0 <= from,
        from + n <= data.len(),
    ensures
        intel_rest(data, 8 * from, 8 * n) == low_first(data, from, n),
    decreases n,
{
    if n > 0 {
        reveal_with_fuel(intel_rest, 9);
        lemma_byte(data, from);
        lemma_intel_bytes(data, from + 1, (n - 1) as nat);
    }
}

/// An Intel field of whole bytes is those bytes in their order, the last one counting
/// most.
pub proof fn law_intel_bytes_read_in_reverse(data: Seq<u8>, from: u64, n: u64)
    requires
        0 < n <= 8,
        from + n <= data.len(),
        8 * from + 8 * n <= u64::MAX,
    ensures
        decode::field_value(data, (8 * from) as u64, (8 * n) as u64, false) == low_first(
            data,
            from as int,
            n as nat,
        ),
{
    lemma_intel_rest(data, (8 * from) as u64, (8 * n) as u64);
    lemma_intel_bytes(data, from as int, n as nat);
}

/// The `k`-th place of a field, from its start bit on.
pub open spec fn place(start_bit: int, big_endian: bool, k: nat) -> int
    decreases k,
{
    if k == 0 {
        start_bit
    } else if big_endian {
        motorola_next(place(start_bit, big_endian, (k - 1) as nat))
    } else {
        place(start_bit, big_endian, (k - 1) as nat) + 1
    }
}

/// Which bit of the raw value stands at the `k`-th place: a Motorola field counts down to
/// its lowest bit, an Intel field up from it.
pub open spec fn bit_number(size: int, big_endian: bool, k: int) -> int {
    if big_endian {
        size - 1 - k
    } else {
        k
    }
}

proof fn lemma_place(start_bit: int, size: int, big_endian: bool, k: nat)
    requires
        0 <= start_bit,
        k < size,
    ensures
        decode::signal_pos(start_bit, size, big_endian, bit_number(size, big_endian, k as int))
            == place(start_bit, big_endian, k),
        0 <= place(start_bit, big_endian, k),
    decreases k,
{
    if k > 0 {
        lemma_place(start_bit, size, big_endian, (k - 1) as nat);
        if big_endian {
            let p = place(start_bit, true, (k - 1) as nat);
            let w = decode::msb_index(start_bit) + k - 1;
            assert(p == decode::msb_index(w));
            assert(decode::msb_index(w + 1) == motorola_next(decode::msb_index(w))) by {
                let a = w / 8;
                let r = w % 8;
                assert(decode::msb_index(w) == 8 * a + (7 - r));
                if r == 7 {
                    assert((w + 1) / 8 == a + 1 && (w + 1) % 8 == 0);
                } else {
                    assert((w + 1) / 8 == a && (w + 1) % 8 == r + 1);
                }
            }
        }
    } else if big_endian {
        let a = start_bit / 8;
        let r = start_bit % 8;
        let w = 8 * a + (7 - r);
        assert(w / 8 == a && w % 8 == 7 - r);
    }
}

/// The first place is the start bit, and the bit there is the highest one of a Motorola
/// field and the lowest one of an Intel field; every further place follows the walk.
pub proof fn law_fields_follow_their_walk(
    data: Seq<u8>,
    start_bit: u64,
    size: u64,
    big_endian: bool,
    k: nat,
)
    requires
        0 < size <= 64,
        k < size,
    ensures
        (decode::field_value(data, start_bit, size, big_endian) as int / pow2(
            bit_number(size as int, big_endian, k as int) as nat,
        ) as int) % 2 == bit_at(data, place(start_bit as int, big_endian, k)),
{
    let i = bit_number(size as int, big_endian, k as int);
    lemma_value(data, start_bit, size, big_endian);
    lemma_gathered(data, start_bit, size, big_endian, size as nat, i as nat);
    lemma_place(start_bit as int, size as int, big_endian, k);
    lemma_payload_bit(data, place(start_bit as int, big_endian, k));
    lemma_raw_bit(decode::field_value(data, start_bit, size, big_endian), i as u64);
}

/// Packing puts each bit of the raw value at its place of the walk, and leaves every bit
/// of the payload that no place names. Nothing is added to the payload or cut off it.
pub proof fn law_packing_sets_the_places_of_the_field(
    before: Seq<u8>,
    after: Seq<u8>,
    start_bit: u64,
    size: u64,
    big_endian: bool,
    raw: u64,
    s: int,
)
    requires
        decode::is_packed(before, after, start_bit, size, big_endian, raw),
        0 <= s < 8 * before.len(),
    ensures
        after.len() == before.len(),
        0 < size <= 64 ==> forall|k: nat|
            k < size && #[trigger] place(start_bit as int, big_endian, k) == s ==> bit_at(after, s)
                == (raw as int / pow2(bit_number(size as int, big_endian, k as int) as nat) as int)
                % 2,
        (size == 0 || size > 64 || forall|k: nat|
            k < size ==> #[trigger] place(start_bit as int, big_endian, k) != s) ==> bit_at(
            after,
            s,
        ) == bit_at(before, s),
{
    lemma_payload_bit(before, s);
    lemma_payload_bit(after, s);
    if 0 < size <= 64 {
        assert forall|k: nat|
            k < size && #[trigger] place(start_bit as int, big_endian, k) == s implies bit_at(
            after,
            s,
        ) == (raw as int / pow2(bit_number(size as int, big_endian, k as int) as nat) as int)
            % 2 by {
            let i = bit_number(size as int, big_endian, k as int);
            lemma_place(start_bit as int, size as int, big_endian, k);
            lemma_raw_bit(raw, i as u64);
            assert(decode::signal_pos(
                start_bit as int,
                size as int,
                big_endian,
                (i as u64) as int,
            ) == s);
        }
        if decode::in_field(start_bit, size, big_endian, s) {
            let i = choose|i: u64|
                #![trigger decode::signal_pos(start_bit as int, size as int, big_endian, i as int)]
                i < size && s == decode::signal_pos(
                    start_bit as int,
                    size as int,
                    big_endian,
                    i as int,
                );
            let k = bit_number(size as int, big_endian, i as int) as nat;
            lemma_place(start_bit as int, size as int, big_endian, k);
            assert(place(start_bit as int, big_endian, k) == s);
        }
    }
}

proof fn lemma_mask(size: u64)
    requires
        size <= 64,
    ensures
        decode::low_mask(size) == pow2(size as nat) - 1,
{
    vstd::arithmetic::power2::lemma2_to64();
    vstd::arithmetic::power2::lemma2_to64_rest();
    if size < 64 {
        vstd::bits::lemma_u64_pow2_no_overflow(size as nat);
        let p = pow2(size as nat) as int;
        assert(1 * p <= u64::MAX);
        vstd::bits::lemma_u64_shl_is_mul(1, size);
    }
}

proof fn lemma_cut(raw: u64, size: u64)
    requires
        0 < size <= 64,
    ensures
        raw & decode::low_mask(size) == raw as int % pow2(size as nat) as int,
{
    lemma_mask(size);
    if size < 64 {
        vstd::bits::lemma_u64_low_bits_mask_is_mod(raw, size as nat);
        vstd::bits::lemma_u64_pow2_no_overflow(size as nat);
        assert(vstd::bits::low_bits_mask(size as nat) == pow2(size as nat) - 1);
        assert(decode::low_mask(size) == vstd::bits::low_bits_mask(size as nat) as u64);
    } else {
        vstd::arithmetic::power2::lemma2_to64();
        vstd::arithmetic::power2::lemma2_to64_rest();
        assert(raw & 0xffff_ffff_ffff_ffff == raw) by (bit_vector);
        vstd::arithmetic::div_mod::lemma_small_mod(raw as nat, pow2(size as nat));
    }
}

/// A signed value is the one number of its width that agrees with the raw value up to
/// whole turns of the width; an unsigned value is the raw value.
pub proof fn law_signed_values_wrap_at_their_width(raw: u64, size: u64)
    requires
        0 < size <= 64,
    ensures
        -pow2((size - 1) as nat) <= decode::raw_integer(raw, size, true) < pow2((size - 1) as nat),
        (decode::raw_integer(raw, size, true) - raw) % pow2(size as nat) as int == 0,
        decode::raw_integer(raw, size, false) == raw,
{
    let m = (size - 1) as nat;
    let p = pow2(size as nat) as int;
    let h = pow2(m) as int;
    vstd::arithmetic::power2::lemma_pow2_unfold(size as nat);
    vstd::arithmetic::power2::lemma_pow2_pos(m);
    lemma_mask(size);
    lemma_cut(raw, size);
    lemma_raw_bit(raw, (size - 1) as u64);
    let c = raw as int % p;
    let q = raw as int / p;
    vstd::arithmetic::div_mod::lemma_fundamental_div_mod(raw as int, p);
    vstd::arithmetic::div_mod::lemma_mod_bound(raw as int, p);
    assert(raw as int / h == 2 * q + c / h) by (nonlinear_arith)
        requires
            raw as int == p * q + c,
            p == 2 * h,
            h > 0,
            0 <= c,
    ;
    assert(c / h == (if c >= h {
        1int
    } else {
        0int
    })) by (nonlinear_arith)
        requires
            0 <= c < 2 * h,
            h > 0,
    ;
    assert((2 * q + c / h) % 2 == c / h);
    let v = decode::raw_integer(raw, size, true);
    assert(v == (if c >= h {
        c - p
    } else {
        c
    }));
    let turns = if c >= h {
        -q - 1
    } else {
        -q
    };
    assert(v - raw == p * turns) by (nonlinear_arith)
        requires
            raw as int == p * q + c,
            c >= h ==> v == c - p && turns == -q - 1,
            c < h ==> v == c && turns == -q,
    ;
    vstd::arithmetic::div_mod::lemma_mod_multiples_basic(turns, p);
    assert(p * turns == turns * p) by (nonlinear_arith);
}

/// A value that its field can hold is fitted as it is: read back it is the same number.
/// One that is too low or too high goes to the nearest that the field can hold.
pub proof fn law_fitted_values_read_back(v: i64, size: u64, signed: bool, raw: u64)
    requires
        0 < size < 64,
        raw == decode::twos_complement(
            decode::clamped(
                v as int,
                decode::width_min(size, signed),
                decode::width_max(size, signed),
            ),
            size,
        ),
    ensures
        raw < pow2(size as nat),
        ({
            let low = if signed {
                -pow2((size - 1) as nat)
            } else {
                0
            };
            let high = if signed {
                pow2((size - 1) as nat) - 1
            } else {
                pow2(size as nat) - 1
            };
            let back = decode::raw_integer(raw, size, signed);
            &&& low <= v <= high ==> back == v
            &&& v < low ==> back == low
            &&& v > high ==> back == high
        }),
{
    lemma_mask(size);
    lemma_mask((size - 1) as u64);
    vstd::arithmetic::power2::lemma_pow2_unfold(size as nat);
    vstd::arithmetic::power2::lemma_pow2_pos((size - 1) as nat);
    decode::law_fit_reads_back(v, size, signed, raw);
}

} // verus!
