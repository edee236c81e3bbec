//! The small texts inside FIBEX and ARXML files: decimals, references, cycle
//! repetitions and conventions.

use vstd::prelude::*;
use crate::text;
use crate::xml;
use crate::xml::XmlNode;

verus! {

/// The index of the first character at `from` or later that is no digit.
pub open spec fn digits_end(s: Seq<char>, from: int) -> int
    decreases s.len() - from,
{
    if from < 0 || from >= s.len() {
        from
    } else if '0' <= s[from] <= '9' {
        digits_end(s, from + 1)
    } else {
        from
    }
}

/// The text has a sign at `k`.
pub open spec fn sign_at(s: Seq<char>, k: int) -> bool {
    0 <= k < s.len() && (s[k] == '+' || s[k] == '-')
}

/// An exponent stands from `k` to the end: `e`, a sign or none, and digits.
pub open spec fn is_exponent(s: Seq<char>, k: int) -> bool {
    let start = if sign_at(s, k + 1) {
        k + 2
    } else {
        k + 1
    };
    &&& 0 <= k < s.len()
    &&& s[k] == 'e' || s[k] == 'E'
    &&& start < s.len()
    &&& digits_end(s, start) == s.len()
}

/// A decimal number without a sign: digits with or without a point, at least one
/// digit, and an exponent or none.
pub open spec fn is_decimal_number(s: Seq<char>) -> bool {
    let whole = digits_end(s, 0);
    let end = if whole < s.len() && s[whole] == '.' {
        digits_end(s, whole + 1)
    } else {
        whole
    };
    &&& whole > 0 || end > whole + 1
    &&& end == s.len() || is_exponent(s, end)
}

/// The text is that of a real number.
pub open spec fn is_real(s: Seq<char>) -> bool {
    let u = if sign_at(s, 0) {
        s.subrange(1, s.len() as int)
    } else {
        s
    };
    ||| text::same_but_case(u, "inf"@)
    ||| text::same_but_case(u, "infinity"@)
    ||| text::same_but_case(u, "nan"@)
    ||| is_decimal_number(u)
}

/// The real number that a text holds, as it is written, without white space
/// around it.
pub open spec fn real_in(s: Seq<char>) -> Option<Seq<char>> {
    if is_real(text::trimmed(s)) {
        Some(text::trimmed(s))
    } else {
        None
    }
}

fn skip_digits(s: &[char], from: usize) -> (r: usize)
    requires
        from <= s@.len(),
    ensures
        r == digits_end(s@, from as int),
        from <= r <= s@.len(),
{
    let mut k: usize = from;
    while k < s.len() && '0' <= s[k] && s[k] <= '9'
        invariant
            from <= k <= s@.len(),
            digits_end(s@, from as int) == digits_end(s@, k as int),
        decreases s.len() - k,
    {
        k = k + 1;
    }
    k
}

fn exponent_at(s: &[char], k: usize) -> (r: bool)
    requires
        k < s@.len(),
    ensures
        r == is_exponent(s@, k as int),
{
    if s[k] != 'e' && s[k] != 'E' {
        return false;
    }
    let total: usize = s.len();
    if k + 1 >= total {
        return false;
    }
    let signed: bool = s[k + 1] == '+' || s[k + 1] == '-';
    if signed {
        if total - k <= 2 {
            return false;
        }
        skip_digits(s, k + 2) == total
    } else {
        skip_digits(s, k + 1) == total
    }
}

fn decimal_number(s: &[char]) -> (r: bool)
    ensures
        r == is_decimal_number(s@),
{
    let whole: usize = skip_digits(s, 0);
    let point: bool = whole < s.len() && s[whole] == '.';
    let end: usize = if point { skip_digits(s, whole + 1) } else { whole };
    if whole == 0 && (!point || end == whole + 1) {
        return false;
    }
    end == s.len() || exponent_at(s, end)
}

/// Reads a real number and keeps it as it is written.
pub fn parse_real(s: &str) -> (r: Option<String>)
    ensures
        xml::text_view(r) == real_in(s@),
{
    let chars: Vec<char> = text::trim_chars(s);
    let signed: bool = chars.len() > 0 && (chars[0] == '+' || chars[0] == '-');
    let start: usize = if signed { 1 } else { 0 };
    let rest: &[char] = vstd::slice::slice_subrange(chars.as_slice(), start, chars.len());
    assert(rest@ =~= if text::trimmed(s@).len() > 0 && sign_at(text::trimmed(s@), 0) {
        text::trimmed(s@).subrange(1, text::trimmed(s@).len() as int)
    } else {
        text::trimmed(s@)
    });
    let word: String = text::string_of(rest);
    let ok: bool = text::equals_ignoring_case(word.as_str(), "inf")
        || text::equals_ignoring_case(word.as_str(), "infinity") || text::equals_ignoring_case(
        word.as_str(),
        "nan",
    ) || decimal_number(rest);
    if ok {
        Some(text::string_of(&chars))
    } else {
        None
    }
}

/// The real number under any of the candidate tags.
pub open spec fn real_under(doc: Seq<XmlNode>, i: int, tags: Seq<&'static str>) -> Option<
    Seq<char>,
> {
    match xml::text_under(doc, i, tags) {
        Some(t) => real_in(t),
        None => None,
    }
}

/// The real number under any of the candidate tags.
pub fn real_of(doc: &Vec<XmlNode>, i: usize, tags: &Vec<&'static str>) -> (r: Option<String>)
    requires
        i < doc@.len(),
    ensures
        xml::text_view(r) == real_under(doc@, i as int, tags@),
{
    match xml::text_of(doc, i, tags) {
        Some(t) => parse_real(t.as_str()),
        None => None,
    }
}

/// The text without leading copies of `pat`.
pub open spec fn without_prefix(s: Seq<char>, pat: Seq<char>) -> Seq<char>
    decreases s.len(),
{
    if pat.len() > 0 && text::stands_at(s, pat, 0) {
        without_prefix(s.subrange(pat.len() as int, s.len() as int), pat)
    } else {
        s
    }
}

/// The text without leading dashes and underscores.
pub open spec fn without_dashes(s: Seq<char>) -> Seq<char>
    decreases s.len(),
{
    if s.len() > 0 && (s[0] == '-' || s[0] == '_') {
        without_dashes(s.drop_first())
    } else {
        s
    }
}

/// The cycle repetition that a text names: a number, or a number behind the
/// name of the enumeration (`CYCLE-REPETITION-4`, `FR_CYCLE_REPETITION_4`).
pub open spec fn repetition_in(s: Seq<char>) -> Option<nat> {
    let plain = xml::number_in(s);
    if plain is Some {
        plain
    } else {
        let named = without_prefix(
            without_prefix(text::upper_text(s), "FR_CYCLE_REPETITION"@),
            "CYCLE-REPETITION"@,
        );
        text::unsigned_value(without_dashes(named), 10, u32::MAX as nat)
    }
}

fn strip_prefix_all(s: String, pat: &str) -> (r: String)
    requires
        pat@.len() > 0,
    ensures
        r@ == without_prefix(s@, pat@),
{
    let mut chars: Vec<char> = text::chars_of(s.as_str());
    let n: usize = text::chars_of(pat).len();
    let mut rest: String = s;
    while text::starts_with_text(rest.as_str(), pat)
        invariant
            n == pat@.len(),
            n > 0,
            chars@ == rest@,
            without_prefix(s@, pat@) == without_prefix(rest@, pat@),
        decreases rest@.len(),
    {
        let tail: &[char] = vstd::slice::slice_subrange(chars.as_slice(), n, chars.len());
        rest = text::string_of(tail);
        chars = text::chars_of(rest.as_str());
    }
    rest
}

/// AUTOSAR cycle repetition enum (`CYCLE-REPETITION-4` /
/// `FR_CYCLE_REPETITION_4` / plain `4`).
pub fn parse_cycle_repetition(s: &str) -> (r: Option<u32>)
    ensures
        xml::is_number(r, repetition_in(s@)),
{
    let plain: Option<u32> = xml::parse_u32(s);
    if plain.is_some() {
        return plain;
    }
    proof {
        reveal_strlit("FR_CYCLE_REPETITION");
        reveal_strlit("CYCLE-REPETITION");
    }
    let once: String = strip_prefix_all(text::uppercase(s), "FR_CYCLE_REPETITION");
    let named: String = strip_prefix_all(once, "CYCLE-REPETITION");
    let chars: Vec<char> = text::chars_of(named.as_str());
    let mut k: usize = 0;
    assert(chars@.subrange(0, chars@.len() as int) =~= chars@);
    while k < chars.len() && (chars[k] == '-' || chars[k] == '_')
        invariant
            k <= chars@.len(),
            without_dashes(chars@) == without_dashes(
                chars@.subrange(k as int, chars@.len() as int),
            ),
        decreases chars.len() - k,
    {
        assert(chars@.subrange(k as int, chars@.len() as int).drop_first() =~= chars@.subrange(
            k + 1,
            chars@.len() as int,
        ));
        k = k + 1;
    }
    let digits: &[char] = vstd::slice::slice_subrange(chars.as_slice(), k, chars.len());
    match text::parse_unsigned(digits, 10, 0xffff_ffff) {
        Some(v) => Some(v as u32),
        None => None,
    }
}

/// The text behind the last slash.
pub open spec fn last_segment(s: Seq<char>) -> Seq<char>
    decreases s.len(),
{
    if s.len() == 0 || s.last() == '/' {
        Seq::<char>::empty()
    } else {
        last_segment(s.drop_last()).push(s.last())
    }
}

/// An AUTOSAR reference path's last segment (`/Pkg/Sub/Name` is `Name`).
pub fn ref_short_name(s: &str) -> (r: String)
    ensures
        r@ == last_segment(s@),
{
    let chars: Vec<char> = text::chars_of(s);
    let mut k: usize = chars.len();
    assert(chars@.subrange(0, chars@.len() as int) =~= chars@);
    let ghost mut tail: Seq<char> = Seq::empty();
    while k > 0 && chars[k - 1] != '/'
        invariant
            k <= chars@.len(),
            chars@ == s@,
            tail == chars@.subrange(k as int, chars@.len() as int),
            last_segment(s@) == last_segment(chars@.subrange(0, k as int)) + tail,
        decreases k,
    {
        proof {
            let upto = chars@.subrange(0, k as int);
            assert(upto.drop_last() =~= chars@.subrange(0, k - 1));
            tail = chars@.subrange(k - 1, chars@.len() as int);
            assert(last_segment(upto) + chars@.subrange(k as int, chars@.len() as int)
                =~= last_segment(upto.drop_last()) + tail);
        }
        k = k - 1;
    }
    assert(last_segment(s@) =~= tail);
    text::string_of(vstd::slice::slice_subrange(chars.as_slice(), k, chars.len()))
}

/// The text names a signed convention: two's complement, symmetric, or signed
/// but not unsigned.
pub open spec fn names_signed(t: Option<Seq<char>>) -> bool {
    match t {
        Some(s) => {
            let u = text::upper_text(s);
            ||| text::holds_text(u, "TWOS"@)
            ||| text::holds_text(u, "SYMMETRIC"@)
            ||| (text::holds_text(u, "SIGNED"@) && !text::stands_at(u, "UN"@, 0))
        },
        None => false,
    }
}

/// Two's complement or signed convention; "UNSIGNED" must not match, though
/// "SIGNED" stands in it.
pub fn is_signed_text(t: &Option<String>) -> (r: bool)
    ensures
        r == names_signed(xml::text_view(*t)),
{
    match t {
        Some(s) => {
            let u: String = text::uppercase(s.as_str());
            text::contains_text(u.as_str(), "TWOS") || text::contains_text(u.as_str(), "SYMMETRIC")
                || (text::contains_text(u.as_str(), "SIGNED") && !text::starts_with_text(
                u.as_str(),
                "UN",
            ))
        },
        None => false,
    }
}

/// A dash or an underscore.
pub open spec fn is_separator(c: char) -> bool {
    c == '-' || c == '_'
}

/// `seg` is one of the parts between dashes and underscores, from `lo` on.
pub open spec fn is_part(s: Seq<char>, lo: int, hi: int, seg: Seq<char>) -> bool {
    &&& 0 <= lo <= hi <= s.len()
    &&& lo == 0 || is_separator(s[lo - 1])
    &&& hi == s.len() || is_separator(s[hi])
    &&& forall|k: int| lo <= k < hi ==> !is_separator(#[trigger] s[k])
    &&& s.subrange(lo, hi) == seg
}

/// `seg` is one of the parts between dashes and underscores.
pub open spec fn has_part(s: Seq<char>, seg: Seq<char>) -> bool {
    exists|lo: int, hi: int| #[trigger] is_part(s, lo, hi, seg)
}

/// Whether one of the two is a part between dashes and underscores.
pub fn has_either_part(s: &str, a: &str, b: &str) -> (r: bool)
    ensures
        r == (has_part(s@, a@) || has_part(s@, b@)),
{
    let chars: Vec<char> = text::chars_of(s);
    let total: usize = chars.len();
    let mut lo: usize = 0;
    let mut hi: usize = 0;
    loop
        invariant
            chars@ == s@,
            total == chars@.len(),
            lo <= hi <= total,
            lo == 0 || is_separator(s@[lo - 1]),
            forall|k: int| lo <= k < hi ==> !is_separator(#[trigger] s@[k]),
            forall|l: int, h: int| l < lo ==> !#[trigger] is_part(s@, l, h, a@),
            forall|l: int, h: int| l < lo ==> !#[trigger] is_part(s@, l, h, b@),
        decreases total - hi, total - lo,
    {
        if hi < total && chars[hi] != '-' && chars[hi] != '_' {
            hi = hi + 1;
        } else {
            let part: String = text::string_of(
                vstd::slice::slice_subrange(chars.as_slice(), lo, hi),
            );
            if text::same_text(part.as_str(), a) {
                assert(is_part(s@, lo as int, hi as int, a@));
                return true;
            }
            if text::same_text(part.as_str(), b) {
                assert(is_part(s@, lo as int, hi as int, b@));
                return true;
            }
            assert forall|l: int, h: int| l <= hi && #[trigger] is_part(
                s@,
                l,
                h,
                a@,
            ) implies false by {
                if l > lo {
                    assert(!is_separator(s@[l - 1]));
                } else if l == lo {
                    if h < hi {
                        assert(!is_separator(s@[h]));
                    } else if h > hi {
                        assert(!is_separator(s@[hi as int]));
                    }
                }
            }
            assert forall|l: int, h: int| l <= hi && #[trigger] is_part(
                s@,
                l,
                h,
                b@,
            ) implies false by {
                if l > lo {
                    assert(!is_separator(s@[l - 1]));
                } else if l == lo {
                    if h < hi {
                        assert(!is_separator(s@[h]));
                    } else if h > hi {
                        assert(!is_separator(s@[hi as int]));
                    }
                }
            }
            if hi >= total {
                return false;
            }
            hi = hi + 1;
            lo = hi;
        }
    }
}

} // verus!
