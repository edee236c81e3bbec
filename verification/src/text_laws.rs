//! Numbers and texts: what is written reads back, and trimming, joining and ordering do
//! what their names say. Also the order of doubles by their bit patterns.

use vstd::prelude::*;
use crate::doubles;
use crate::generator;
use crate::text;

verus! {

proof fn lemma_digit(d: int)
    requires
        0 <= d < 16,
    ensures
        text::digit_value(text::digit_char(d)) == d,
        text::digit_char(d) != '+',
        text::digit_char(d) != '-',
        !text::is_white(text::digit_char(d)),
{
    assert(forall|e: int|
        0 <= e < 16 ==> text::digit_value(#[trigger] text::digit_char(e)) == e
            && text::digit_char(e) != '+' && text::digit_char(e) != '-' && !text::is_white(
            text::digit_char(e),
        ));
}

proof fn lemma_number(n: nat, base: nat)
    requires
        2 <= base <= 16,
    ensures
        text::number_text(n, base).len() > 0,
        text::digits_value(text::number_text(n, base), base) == Some(n),
        forall|i: int|
            0 <= i < text::number_text(n, base).len() ==> {
                let c = #[trigger] text::number_text(n, base)[i];
                c != '+' && c != '-' && !text::is_white(c)
            },
    decreases n,
{
    let t = text::number_text(n, base);
    if n < base {
        lemma_digit(n as int);
    } else {
        assert(n / base < n) by (nonlinear_arith)
            requires
                base >= 2,
                n >= base,
        ;
        lemma_number(n / base, base);
        vstd::arithmetic::div_mod::lemma_fundamental_div_mod(n as int, base as int);
        vstd::arithmetic::div_mod::lemma_mod_bound(n as int, base as int);
        lemma_digit((n % base) as int);
        assert(t.drop_last() =~= text::number_text(n / base, base));
        assert((n / base) * base == base * (n / base)) by (nonlinear_arith);
        assert forall|i: int| 0 <= i < t.len() implies {
            let c = #[trigger] t[i];
            c != '+' && c != '-' && !text::is_white(c)
        } by {
            if i < t.len() - 1 {
                assert(t[i] == text::number_text(n / base, base)[i]);
            }
        }
    }
}

/// A number that is written in a base reads back in that base as itself, where it is in
/// bounds, and is refused where it is not.
pub proof fn law_a_written_number_reads_back(n: nat, base: nat, max: nat)
    requires
        2 <= base <= 16,
    ensures
        n <= max ==> text::unsigned_value(text::number_text(n, base), base, max) == Some(n),
        n > max ==> text::unsigned_value(text::number_text(n, base), base, max) is None,
        text::unsigned_value(seq!['+'] + text::number_text(n, base), base, max)
            == text::unsigned_value(text::number_text(n, base), base, max),
{
    lemma_number(n, base);
    let t = text::number_text(n, base);
    assert(t[0] != '+');
    let signed = seq!['+'] + t;
    assert(signed.drop_first() =~= t);
}

/// Different numbers are written differently, and no number starts with a zero but zero
/// itself.
pub proof fn law_numbers_are_told_apart(a: nat, b: nat, base: nat)
    requires
        2 <= base <= 16,
        text::number_text(a, base) == text::number_text(b, base),
    ensures
        a == b,
{
    lemma_number(a, base);
    lemma_number(b, base);
}

/// A padded hexadecimal number is at least as wide as asked, reads back as itself, and is
/// no wider than it must be.
pub proof fn law_padding_keeps_the_number(n: nat, width: nat, max: nat)
    requires
        n <= max,
    ensures
        text::hex_padded(n, width).len() >= width,
        text::hex_padded(n, width).len() == width || text::hex_padded(n, width)
            == text::number_text(n, 16),
        text::unsigned_value(text::hex_padded(n, width), 16, max) == Some(n),
{
    lemma_number(n, 16);
    let t = text::number_text(n, 16);
    let pad = width - t.len();
    lemma_zeros(t, 16, if pad > 0 { pad as nat } else { 0 });
    if pad <= 0 {
        assert(text::hex_padded(n, width) =~= t);
    }
    let p = text::hex_padded(n, width);
    assert(p[0] != '+') by {
        if pad > 0 {
            assert(p[0] == '0');
        } else {
            assert(p[0] == t[0]);
        }
    }
}

proof fn lemma_zeros(t: Seq<char>, base: nat, k: nat)
    requires
        2 <= base <= 16,
        text::digits_value(t, base) is Some,
    ensures
        text::digits_value(text::zeros(k as int) + t, base) == text::digits_value(t, base),
    decreases t.len(),
{
    let p = text::zeros(k as int) + t;
    if t.len() == 1 {
        lemma_only_zeros(base, k);
        if k > 0 {
            assert(p.drop_last() =~= text::zeros(k as int));
            assert(0 * base == 0) by (nonlinear_arith);
        } else {
            assert(p =~= t);
        }
    } else {
        lemma_zeros(t.drop_last(), base, k);
        assert(p.drop_last() =~= text::zeros(k as int) + t.drop_last());
        assert(p.last() == t.last());
    }
}

proof fn lemma_only_zeros(base: nat, k: nat)
    requires
        2 <= base <= 16,
    ensures
        k > 0 ==> text::digits_value(text::zeros(k as int), base) == Some(0nat),
    decreases k,
{
    if k > 0 {
        let z = text::zeros(k as int);
        assert(z.last() == '0');
        if k > 1 {
            lemma_only_zeros(base, (k - 1) as nat);
            assert(z.drop_last() =~= text::zeros(k - 1));
            assert(0 * base == 0) by (nonlinear_arith);
        }
    }
}

/// A negative number is written with a minus before its size, any other as its digits.
pub proof fn law_decimals_show_their_sign(n: int)
    ensures
        n < 0 ==> text::decimal(n)[0] == '-' && text::decimal(n).drop_first() == text::decimal(-n),
        n >= 0 ==> text::decimal(n)[0] != '-' && text::unsigned_value(
            text::decimal(n),
            10,
            n as nat,
        ) == Some(n as nat),
{
    if n < 0 {
        lemma_number((-n) as nat, 10);
        assert(text::decimal(n).drop_first() =~= text::decimal(-n));
    } else {
        lemma_number(n as nat, 10);
        law_a_written_number_reads_back(n as nat, 10, n as nat);
    }
}

/// A trimmed text has no white space at either end, and what was cut off was white space
/// only.
pub proof fn law_trimming_cuts_only_white_space(s: Seq<char>) -> (ends: (int, int))
    ensures
        0 <= ends.0 <= ends.1 <= s.len(),
        text::trimmed(s) == s.subrange(ends.0, ends.1),
        forall|i: int| 0 <= i < ends.0 ==> text::is_white(#[trigger] s[i]),
        forall|i: int| ends.1 <= i < s.len() ==> text::is_white(#[trigger] s[i]),
        text::trimmed(s).len() > 0 ==> !text::is_white(text::trimmed(s)[0]) && !text::is_white(
            text::trimmed(s).last(),
        ),
{
    let a = lemma_trim_start(s);
    let rest = text::trimmed_start(s);
    let b = lemma_trim_end(rest);
    assert(text::trimmed(s) =~= s.subrange(a, a + b));
    assert forall|i: int| a + b <= i < s.len() implies text::is_white(#[trigger] s[i]) by {
        assert(rest[i - a] == s[i]);
    }
    (a, a + b)
}

proof fn lemma_trim_start(s: Seq<char>) -> (a: int)
    ensures
        0 <= a <= s.len(),
        text::trimmed_start(s) == s.subrange(a, s.len() as int),
        forall|i: int| 0 <= i < a ==> text::is_white(#[trigger] s[i]),
        a < s.len() ==> !text::is_white(s[a]),
    decreases s.len(),
{
    if s.len() > 0 && text::is_white(s[0]) {
        let rest = s.drop_first();
        let b = lemma_trim_start(rest);
        assert(text::trimmed_start(s) =~= s.subrange(b + 1, s.len() as int));
        assert forall|i: int| 0 <= i < b + 1 implies text::is_white(#[trigger] s[i]) by {
            if i > 0 {
                assert(rest[i - 1] == s[i]);
            }
        }
        b + 1
    } else {
        assert(s.subrange(0, s.len() as int) =~= s);
        0
    }
}

proof fn lemma_trim_end(s: Seq<char>) -> (b: int)
    ensures
        0 <= b <= s.len(),
        text::trimmed_end(s) == s.subrange(0, b),
        forall|i: int| b <= i < s.len() ==> text::is_white(#[trigger] s[i]),
        b > 0 ==> !text::is_white(s[b - 1]),
    decreases s.len(),
{
    if s.len() > 0 && text::is_white(s.last()) {
        let rest = s.drop_last();
        let b = lemma_trim_end(rest);
        assert(text::trimmed_end(s) =~= s.subrange(0, b));
        assert forall|i: int| b <= i < s.len() implies text::is_white(#[trigger] s[i]) by {
            if i < rest.len() {
                assert(rest[i] == s[i]);
            }
        }
        b
    } else {
        assert(s.subrange(0, s.len() as int) =~= s);
        s.len() as int
    }
}

/// A period of whole milliseconds up to a minute is read as a thousand times as many
/// microseconds; a longer one is refused, and so is an empty text.
pub proof fn law_a_typed_period_is_in_milliseconds(ms: nat)
    ensures
        ms <= 60_000 ==> generator::cycle_in(text::number_text(ms, 10)) == Some(
            (ms * 1000) as int,
        ),
        ms > 60_000 ==> generator::cycle_in(text::number_text(ms, 10)) is None,
        generator::cycle_in(Seq::empty()) is None,
{
    lemma_number(ms, 10);
    let t = text::number_text(ms, 10);
    assert(!text::is_white(t[0]) && !text::is_white(t[t.len() - 1]));
    assert(text::trimmed(t) == t);
    assert(text::trimmed(Seq::<char>::empty()) =~= Seq::<char>::empty());
    law_a_written_number_reads_back(ms, 10, u64::MAX as nat);
}

/// Joined texts are as long as the texts and the separators between them, start with the
/// first text and end with the last.
pub proof fn law_joined_texts_keep_their_ends(parts: Seq<Seq<char>>, sep: Seq<char>)
    requires
        parts.len() > 0,
    ensures
        parts.len() == 1 ==> text::joined(parts, sep) == parts[0],
        text::joined(parts, sep).len() >= parts[0].len(),
        text::joined(parts, sep).subrange(0, parts[0].len() as int) == parts[0],
        parts.len() > 1 ==> text::joined(parts, sep) == text::joined(parts.drop_last(), sep) + sep
            + parts.last(),
    decreases parts.len(),
{
    let t = text::joined(parts, sep);
    if parts.len() > 1 {
        let rest = parts.drop_last();
        law_joined_texts_keep_their_ends(rest, sep);
        let head = text::joined(rest, sep);
        assert(rest[0] == parts[0]);
        assert(t.subrange(0, parts[0].len() as int) =~= head.subrange(0, parts[0].len() as int));
    } else {
        assert(t.subrange(0, t.len() as int) =~= t);
    }
}

/// Case is ignored for ASCII letters and for nothing else.
pub proof fn law_only_letters_have_a_case(a: char, b: char)
    requires
        text::upper_ascii(a) == text::upper_ascii(b),
        a != b,
    ensures
        ('a' <= a <= 'z' && 'A' <= b <= 'Z') || ('A' <= a <= 'Z' && 'a' <= b <= 'z'),
{
}

/// Positive doubles are ordered as their bit patterns are, negative ones the other way
/// round, every negative one below every positive one, and the two zeros in one place.
pub proof fn law_doubles_are_ordered(a: u64, b: u64)
    ensures
        a < 0x8000_0000_0000_0000 && b < 0x8000_0000_0000_0000 ==> doubles::is_less(a, b) == (a
            < b),
        a >= 0x8000_0000_0000_0000 && b >= 0x8000_0000_0000_0000 ==> doubles::is_less(a, b) == (b
            < a),
        a > 0x8000_0000_0000_0000 && b < 0x8000_0000_0000_0000 ==> doubles::is_less(a, b),
        !doubles::is_less(0, 0x8000_0000_0000_0000),
        !doubles::is_less(0x8000_0000_0000_0000, 0),
        doubles::is_less(a, b) ==> !doubles::is_less(b, a),
        doubles::is_number(a) == (a % 0x8000_0000_0000_0000 <= 0x7FF0_0000_0000_0000),
{
}

} // verus!
