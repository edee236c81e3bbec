//! Text building blocks: comparison, assembly, numbers in and out, trimming.

use vstd::prelude::*;
use vstd::string::*;

verus! {

/// `String::push`: the string grows by the one character.
pub assume_specification[ String::push ](s: &mut String, c: char)
    ensures
        final(s)@ == old(s)@.push(c),
;

/// `==` on string slices: the two hold the same characters.
pub assume_specification[ <str as PartialEq>::eq ](a: &str, b: &str) -> (r: bool)
    ensures
        r == (a@ == b@),
;

/// The two hold the same characters.
pub fn same_text(a: &str, b: &str) -> (r: bool)
    ensures
        r == (a@ == b@),
{
    a.eq(b)
}

/// Builds a string from characters.
pub fn string_of(chars: &[char]) -> (s: String)
    ensures
        s@ == chars@,
{
    let mut s: String = String::new();
    for i in 0..chars.len()
        invariant
            s@ == chars@.subrange(0, i as int),
    {
        s.push(chars[i]);
        assert(chars@.subrange(0, i as int).push(chars@[i as int]) =~= chars@.subrange(
            0,
            i + 1,
        ));
    }
    assert(chars@.subrange(0, chars@.len() as int) =~= chars@);
    s
}

/// The characters of a string.
pub fn chars_of(s: &str) -> (chars: Vec<char>)
    ensures
        chars@ == s@,
{
    let mut chars: Vec<char> = Vec::new();
    for c in it: s.chars()
        invariant
            chars@ == it.seq().take(it.index() as int),
    {
        chars.push(c);
    }
    chars
}

/// The digit characters, in upper case above nine.
pub open spec fn digit_char(d: int) -> char {
    seq!['0', '1', '2', '3', '4', '5', '6', '7', '8', '9', 'A', 'B', 'C', 'D', 'E', 'F'][d]
}

/// A number written in `base` without leading zeros.
pub open spec fn number_text(n: nat, base: nat) -> Seq<char>
    decreases n,
    when 2 <= base <= 16
{
    if n < base {
        seq![digit_char(n as int)]
    } else {
        proof {
            assert(n / base < n) by (nonlinear_arith)
                requires
                    base >= 2,
                    n >= base,
            ;
        }
        number_text(n / base, base).push(digit_char((n % base) as int))
    }
}

/// A number in decimal.
pub open spec fn decimal(n: int) -> Seq<char> {
    if n < 0 {
        seq!['-'] + number_text((-n) as nat, 10)
    } else {
        number_text(n as nat, 10)
    }
}

/// `n` zeros.
pub open spec fn zeros(n: int) -> Seq<char> {
    Seq::new(if n < 0 { 0 } else { n as nat }, |i: int| '0')
}

/// A number in upper-case hexadecimal, padded with zeros to `width` digits.
pub open spec fn hex_padded(n: nat, width: nat) -> Seq<char> {
    let digits = number_text(n, 16);
    zeros(width - digits.len()) + digits
}

fn digit_of(d: u64) -> (c: char)
    requires
        d < 16,
    ensures
        c == digit_char(d as int),
{
    match d {
        0 => '0',
        1 => '1',
        2 => '2',
        3 => '3',
        4 => '4',
        5 => '5',
        6 => '6',
        7 => '7',
        8 => '8',
        9 => '9',
        10 => 'A',
        11 => 'B',
        12 => 'C',
        13 => 'D',
        14 => 'E',
        _ => 'F',
    }
}

fn push_number(out: &mut String, n: u64, base: u64)
    requires
        2 <= base <= 16,
    ensures
        final(out)@ == old(out)@ + number_text(n as nat, base as nat),
    decreases n,
{
    if n >= base {
        assert(n / base < n) by (nonlinear_arith)
            requires
                base >= 2,
                n >= base,
        ;
        push_number(out, n / base, base);
    }
    assert(n % base < base && (n < base ==> n % base == n)) by (nonlinear_arith)
        requires
            base >= 2,
    ;
    out.push(digit_of(n % base));
    assert(out@ =~= old(out)@ + number_text(n as nat, base as nat));
}

/// Appends a number in decimal.
pub fn push_u64(out: &mut String, n: u64)
    ensures
        final(out)@ == old(out)@ + decimal(n as int),
{
    push_number(out, n, 10);
}

/// Appends a signed number in decimal.
pub fn push_i64(out: &mut String, n: i64)
    ensures
        final(out)@ == old(out)@ + decimal(n as int),
{
    if n < 0 {
        out.push('-');
        if n == i64::MIN {
            push_number(out, 0x8000_0000_0000_0000, 10);
        } else {
            push_number(out, (-n) as u64, 10);
        }
        assert(out@ =~= old(out)@ + decimal(n as int));
    } else {
        push_number(out, n as u64, 10);
    }
}

/// Appends a number in upper-case hexadecimal, padded with zeros to `width`
/// digits.
pub fn push_hex(out: &mut String, n: u64, width: usize)
    ensures
        final(out)@ == old(out)@ + hex_padded(n as nat, width as nat),
{
    let mut digits: String = String::new();
    push_number(&mut digits, n, 16);
    assert(digits@ =~= number_text(n as nat, 16));
    let k: usize = digits.as_str().unicode_len();
    let pad: usize = if k < width { width - k } else { 0 };
    for i in 0..pad
        invariant
            out@ =~= old(out)@ + zeros(i as int),
    {
        out.push('0');
    }
    out.append(digits.as_str());
    assert(out@ =~= old(out)@ + hex_padded(n as nat, width as nat));
}

/// The characters that Unicode calls white space.
pub open spec fn is_white(c: char) -> bool {
    ||| '\u{9}' <= c <= '\u{d}'
    ||| c == ' '
    ||| c == '\u{85}'
    ||| c == '\u{a0}'
    ||| c == '\u{1680}'
    ||| '\u{2000}' <= c <= '\u{200a}'
    ||| c == '\u{2028}'
    ||| c == '\u{2029}'
    ||| c == '\u{202f}'
    ||| c == '\u{205f}'
    ||| c == '\u{3000}'
}

/// Whether a character is whitespace.
pub fn white(c: char) -> (r: bool)
    ensures
        r == is_white(c),
{
    ('\u{9}' <= c && c <= '\u{d}') || c == ' ' || c == '\u{85}' || c == '\u{a0}' || c == '\u{1680}'
        || ('\u{2000}' <= c && c <= '\u{200a}') || c == '\u{2028}' || c == '\u{2029}' || c
        == '\u{202f}' || c == '\u{205f}' || c == '\u{3000}'
}

/// The text without white space at its start.
pub open spec fn trimmed_start(s: Seq<char>) -> Seq<char>
    decreases s.len(),
{
    if s.len() > 0 && is_white(s[0]) {
        trimmed_start(s.drop_first())
    } else {
        s
    }
}

/// The text without white space at its end.
pub open spec fn trimmed_end(s: Seq<char>) -> Seq<char>
    decreases s.len(),
{
    if s.len() > 0 && is_white(s.last()) {
        trimmed_end(s.drop_last())
    } else {
        s
    }
}

/// The text without white space at either end.
pub open spec fn trimmed(s: Seq<char>) -> Seq<char> {
    trimmed_end(trimmed_start(s))
}

/// The characters of `s` without white space at either end.
pub fn trim_chars(s: &str) -> (r: Vec<char>)
    ensures
        r@ == trimmed(s@),
{
    let all: Vec<char> = chars_of(s);
    let mut lo: usize = 0;
    assert(all@.subrange(0, all@.len() as int) =~= all@);
    while lo < all.len() && white(all[lo])
        invariant
            lo <= all.len(),
            trimmed_start(all@) == trimmed_start(all@.subrange(lo as int, all@.len() as int)),
        decreases all.len() - lo,
    {
        assert(all@.subrange(lo as int, all@.len() as int).drop_first() =~= all@.subrange(
            lo + 1,
            all@.len() as int,
        ));
        lo = lo + 1;
    }
    let ghost front: Seq<char> = all@.subrange(lo as int, all@.len() as int);
    assert(trimmed_start(all@) == front);
    let mut hi: usize = all.len();
    while lo < hi && white(all[hi - 1])
        invariant
            lo <= hi <= all.len(),
            trimmed_end(front) == trimmed_end(all@.subrange(lo as int, hi as int)),
        decreases hi,
    {
        assert(all@.subrange(lo as int, hi as int).drop_last() =~= all@.subrange(
            lo as int,
            hi - 1,
        ));
        hi = hi - 1;
    }
    let mut r: Vec<char> = Vec::new();
    for i in lo..hi
        invariant
            lo <= hi <= all.len(),
            r@ == all@.subrange(lo as int, i as int),
    {
        r.push(all[i]);
        assert(r@ =~= all@.subrange(lo as int, i + 1));
    }
    r
}

/// The text without white space at either end.
pub fn trim(s: &str) -> (r: String)
    ensures
        r@ == trimmed(s@),
{
    string_of(&trim_chars(s))
}

/// The value of a digit in bases up to sixteen, in either case; -1 for any other
/// character.
pub open spec fn digit_value(c: char) -> int {
    if '0' <= c <= '9' {
        c as int - '0' as int
    } else if 'a' <= c <= 'f' {
        c as int - 'a' as int + 10
    } else if 'A' <= c <= 'F' {
        c as int - 'A' as int + 10
    } else {
        -1
    }
}

/// The number that a run of digits in `base` stands for; `None` where there is no
/// digit, or where some character is none.
pub open spec fn digits_value(s: Seq<char>, base: nat) -> Option<nat>
    decreases s.len(),
{
    if s.len() == 0 {
        None
    } else {
        let d = digit_value(s.last());
        if d < 0 || d >= base {
            None
        } else if s.len() == 1 {
            Some(d as nat)
        } else {
            match digits_value(s.drop_last(), base) {
                Some(v) => Some(v * base + d as nat),
                None => None,
            }
        }
    }
}

/// What a text stands for as an unsigned number of at most `max`: digits with an
/// optional plus sign before them.
pub open spec fn unsigned_value(s: Seq<char>, base: nat, max: nat) -> Option<nat> {
    let digits = if s.len() > 0 && s[0] == '+' {
        s.drop_first()
    } else {
        s
    };
    match digits_value(digits, base) {
        Some(v) => if v <= max {
            Some(v)
        } else {
            None
        },
        None => None,
    }
}

fn value_of_digit(c: char) -> (d: i32)
    ensures
        d == digit_value(c),
        -1 <= d < 16,
{
    if '0' <= c && c <= '9' {
        (c as u32 - '0' as u32) as i32
    } else if 'a' <= c && c <= 'f' {
        (c as u32 - 'a' as u32) as i32 + 10
    } else if 'A' <= c && c <= 'F' {
        (c as u32 - 'A' as u32) as i32 + 10
    } else {
        -1
    }
}

/// Prefixes of a run of digits stand for no greater number than the run.
proof fn lemma_digits_prefix(s: Seq<char>, base: nat, k: int)
    requires
        0 < k <= s.len(),
        2 <= base <= 16,
    ensures
        digits_value(s.subrange(0, k), base) is None ==> digits_value(s, base) is None,
        digits_value(s, base) is Some ==> digits_value(s.subrange(0, k), base) is Some
            && digits_value(s.subrange(0, k), base)->0 <= digits_value(s, base)->0,
    decreases s.len() - k,
{
    if k == s.len() {
        assert(s.subrange(0, k) =~= s);
    } else {
        lemma_digits_prefix(s, base, k + 1);
        let t = s.subrange(0, k + 1);
        assert(t.drop_last() =~= s.subrange(0, k));
        if digits_value(t, base) is Some {
            let v = digits_value(s.subrange(0, k), base)->0;
            assert(v <= v * base) by (nonlinear_arith)
                requires
                    base >= 2,
            ;
        }
    }
}

/// Reads an unsigned number: digits in `base` with an optional plus sign before
/// them, standing for at most `max`.
pub fn parse_unsigned(s: &[char], base: u64, max: u64) -> (r: Option<u64>)
    requires
        2 <= base <= 16,
    ensures
        r is Some == unsigned_value(s@, base as nat, max as nat) is Some,
        r is Some ==> r->0 == unsigned_value(s@, base as nat, max as nat)->0,
{
    let start: usize = if s.len() > 0 && s[0] == '+' { 1 } else { 0 };
    let ghost digits: Seq<char> = s@.subrange(start as int, s@.len() as int);
    assert(digits =~= if s@.len() > 0 && s@[0] == '+' { s@.drop_first() } else { s@ });
    if start == s.len() {
        return None;
    }
    let mut acc: u64 = 0;
    for i in start..s.len()
        invariant
            start <= s.len(),
            2 <= base <= 16,
            digits == s@.subrange(start as int, s@.len() as int),
            unsigned_value(s@, base as nat, max as nat) == match digits_value(
                digits,
                base as nat,
            ) {
                Some(v) => if v <= max {
                    Some(v)
                } else {
                    None
                },
                None => None,
            },
            acc <= max,
            i == start ==> acc == 0,
            i > start ==> digits_value(digits.subrange(0, i - start), base as nat) == Some(
                acc as nat,
            ),
    {
        let d: i32 = value_of_digit(s[i]);
        let ghost upto: Seq<char> = digits.subrange(0, i - start + 1);
        proof {
            assert(upto.last() == s@[i as int]);
            assert(upto.drop_last() =~= digits.subrange(0, i - start));
            lemma_digits_prefix(digits, base as nat, i - start + 1);
        }
        if d < 0 || d as u64 >= base {
            return None;
        }
        assert(acc as u128 * base as u128 <= 0xffff_ffff_ffff_ffff * 16) by (nonlinear_arith)
            requires
                acc <= 0xffff_ffff_ffff_ffffu64,
                base <= 16,
        ;
        assert(acc == 0 ==> acc as u128 * base as u128 == 0) by (nonlinear_arith);
        let next: u128 = acc as u128 * base as u128 + d as u128;
        assert(digits_value(upto, base as nat) == Some(next as nat));
        if next > max as u128 {
            return None;
        }
        acc = next as u64;
    }
    assert(digits.subrange(0, digits.len() as int) =~= digits);
    Some(acc)
}

/// Alphabetical order by character.
pub open spec fn text_less(a: Seq<char>, b: Seq<char>) -> bool
    decreases a.len(),
{
    if b.len() == 0 {
        false
    } else if a.len() == 0 {
        true
    } else if a[0] != b[0] {
        a[0] < b[0]
    } else {
        text_less(a.drop_first(), b.drop_first())
    }
}

/// The order is irreflexive, and any two different texts are ordered one way.
pub proof fn lemma_text_order(a: Seq<char>, b: Seq<char>)
    ensures
        text_less(a, b) ==> a != b && !text_less(b, a),
        a != b ==> text_less(a, b) || text_less(b, a),
    decreases a.len(),
{
    if a.len() > 0 && b.len() > 0 {
        lemma_text_order(a.drop_first(), b.drop_first());
        if a[0] == b[0] && a.drop_first() == b.drop_first() {
            assert(a =~= seq![a[0]] + a.drop_first());
            assert(b =~= seq![b[0]] + b.drop_first());
        }
    } else if a.len() == 0 && b.len() == 0 {
        assert(a =~= b);
    }
}

/// The order is transitive.
pub proof fn lemma_text_order_transitive(a: Seq<char>, b: Seq<char>, c: Seq<char>)
    requires
        text_less(a, b),
        text_less(b, c),
    ensures
        text_less(a, c),
    decreases a.len(),
{
    if a.len() > 0 && a[0] == b[0] && b[0] == c[0] {
        lemma_text_order_transitive(a.drop_first(), b.drop_first(), c.drop_first());
    }
}

/// `a` comes before `b` in alphabetical order.
pub fn comes_before(a: &str, b: &str) -> (r: bool)
    ensures
        r == text_less(a@, b@),
{
    let left: Vec<char> = chars_of(a);
    let right: Vec<char> = chars_of(b);
    let mut i: usize = 0;
    assert(left@.subrange(0, left@.len() as int) =~= left@);
    assert(right@.subrange(0, right@.len() as int) =~= right@);
    while i < left.len() && i < right.len() && left[i] == right[i]
        invariant
            i <= left@.len(),
            i <= right@.len(),
            text_less(a@, b@) == text_less(
                left@.subrange(i as int, left@.len() as int),
                right@.subrange(i as int, right@.len() as int),
            ),
        decreases left.len() - i,
    {
        let ghost l = left@.subrange(i as int, left@.len() as int);
        let ghost r = right@.subrange(i as int, right@.len() as int);
        assert(l.drop_first() =~= left@.subrange(i + 1, left@.len() as int));
        assert(r.drop_first() =~= right@.subrange(i + 1, right@.len() as int));
        i = i + 1;
    }
    if i >= right.len() {
        false
    } else if i >= left.len() {
        true
    } else {
        left[i] < right[i]
    }
}

/// Every name stands once, in alphabetical order.
pub open spec fn strictly_sorted(names: Seq<String>) -> bool {
    forall|i: int, j: int|
        0 <= i < j < names.len() ==> text_less(#[trigger] names[i]@, #[trigger] names[j]@)
}

/// The name stands in the list.
pub open spec fn lists(names: Seq<String>, name: Seq<char>) -> bool {
    exists|i: int| 0 <= i < names.len() && #[trigger] names[i]@ == name
}

/// Whether the name stands in the list.
pub fn listed(names: &Vec<String>, name: &str) -> (r: bool)
    ensures
        r == lists(names@, name@),
{
    for i in 0..names.len()
        invariant
            forall|j: int| 0 <= j < i ==> #[trigger] names@[j]@ != name@,
    {
        if same_text(names[i].as_str(), name) {
            return true;
        }
    }
    false
}

/// Puts a name in its alphabetical place, unless it stands there already.
pub fn insert_sorted(names: &mut Vec<String>, name: &String)
    requires
        strictly_sorted(old(names)@),
    ensures
        strictly_sorted(final(names)@),
        forall|w: Seq<char>| #[trigger]
            lists(final(names)@, w) == (lists(old(names)@, w) || w == name@),
{
    let ghost before: Seq<String> = names@;
    let mut at: usize = 0;
    while at < names.len() && comes_before(names[at].as_str(), name.as_str())
        invariant
            names@ == before,
            at <= names@.len(),
            forall|j: int| 0 <= j < at ==> text_less(#[trigger] before[j]@, name@),
        decreases names.len() - at,
    {
        at = at + 1;
    }
    if at < names.len() && names[at] == *name {
        assert(lists(before, name@));
        return;
    }
    names.insert(at, name.clone());
    proof {
        let after = names@;
        assert(after == before.insert(at as int, *name));
        assert forall|j: int| at <= j < before.len() implies text_less(
            name@,
            #[trigger] before[j]@,
        ) by {
            lemma_text_order(name@, before[at as int]@);
            if j > at {
                lemma_text_order_transitive(name@, before[at as int]@, before[j]@);
            }
        }
        assert forall|i: int, j: int| 0 <= i < j < after.len() implies text_less(
            #[trigger] after[i]@,
            #[trigger] after[j]@,
        ) by {
            let p = if i < at { i } else { i - 1 };
            let q = if j < at { j } else { j - 1 };
            if i != at && j != at {
                assert(text_less(before[p]@, before[q]@));
            }
        }
        assert forall|w: Seq<char>| #[trigger] lists(after, w) == (lists(before, w) || w
            == name@) by {
            if lists(before, w) {
                let i = choose|i: int| 0 <= i < before.len() && #[trigger] before[i]@ == w;
                if i < at {
                    assert(after[i]@ == w);
                } else {
                    assert(after[i + 1]@ == w);
                }
            }
            assert(after[at as int]@ == name@);
            if lists(after, w) {
                let i = choose|i: int| 0 <= i < after.len() && #[trigger] after[i]@ == w;
                if i < at {
                    assert(before[i]@ == w);
                } else if i > at {
                    assert(before[i - 1]@ == w);
                }
            }
        }
    }
}

/// A copy of a list of names.
pub fn copy_names(names: &Vec<String>) -> (r: Vec<String>)
    ensures
        r@ == names@,
{
    let mut r: Vec<String> = Vec::new();
    for i in 0..names.len()
        invariant
            r@ == names@.subrange(0, i as int),
    {
        r.push(names[i].clone());
        assert(r@ =~= names@.subrange(0, i + 1));
    }
    assert(r@ =~= names@);
    r
}

/// `pat` stands in `s` at `k`.
pub open spec fn stands_at(s: Seq<char>, pat: Seq<char>, k: int) -> bool {
    0 <= k && k + pat.len() <= s.len() && s.subrange(k, k + pat.len()) == pat
}

/// `pat` stands somewhere in `s`.
pub open spec fn holds_text(s: Seq<char>, pat: Seq<char>) -> bool {
    exists|k: int| #[trigger] stands_at(s, pat, k)
}

fn matches_at(s: &Vec<char>, pat: &Vec<char>, k: usize) -> (r: bool)
    ensures
        r == stands_at(s@, pat@, k as int),
{
    let total: usize = s.len();
    if k > total || pat.len() > total - k {
        return false;
    }
    for i in 0..pat.len()
        invariant
            s@.len() == total,
            k + pat@.len() <= s@.len(),
            s@.subrange(k as int, k + i) == pat@.subrange(0, i as int),
    {
        if s[k + i] != pat[i] {
            assert(s@.subrange(k as int, k + pat@.len())[i as int] != pat@[i as int]);
            return false;
        }
        assert(s@.subrange(k as int, k + i + 1) =~= pat@.subrange(0, i + 1));
    }
    assert(pat@.subrange(0, pat@.len() as int) =~= pat@);
    true
}

/// Whether `pat` stands somewhere in `s`.
pub fn contains_text(s: &str, pat: &str) -> (r: bool)
    ensures
        r == holds_text(s@, pat@),
{
    let whole: Vec<char> = chars_of(s);
    let part: Vec<char> = chars_of(pat);
    for k in 0..whole.len()
        invariant
            whole@ == s@,
            part@ == pat@,
            forall|j: int| 0 <= j < k ==> !#[trigger] stands_at(s@, pat@, j),
    {
        if matches_at(&whole, &part, k) {
            return true;
        }
    }
    matches_at(&whole, &part, whole.len())
}

/// Whether `s` starts with `pat`.
pub fn starts_with_text(s: &str, pat: &str) -> (r: bool)
    ensures
        r == stands_at(s@, pat@, 0),
{
    matches_at(&chars_of(s), &chars_of(pat), 0)
}

/// The upper-case letter of an ASCII letter; any other character itself.
pub open spec fn upper_ascii(c: char) -> char {
    if 'a' <= c <= 'z' {
        ((c as int) - 32) as char
    } else {
        c
    }
}

/// The upper-case letter of an ASCII letter; any other character itself.
pub(crate) fn to_upper_ascii(c: char) -> (r: char)
    ensures
        r == upper_ascii(c),
{
    if 'a' <= c && c <= 'z' {
        ((c as u8) - 32) as char
    } else {
        c
    }
}

/// The two agree but for the case of ASCII letters.
pub open spec fn same_but_case(a: Seq<char>, b: Seq<char>) -> bool {
    a.len() == b.len() && forall|i: int|
        0 <= i < a.len() ==> upper_ascii(#[trigger] a[i]) == upper_ascii(b[i])
}

/// Whether the two agree but for the case of ASCII letters.
pub fn equals_ignoring_case(a: &str, b: &str) -> (r: bool)
    ensures
        r == same_but_case(a@, b@),
{
    let left: Vec<char> = chars_of(a);
    let right: Vec<char> = chars_of(b);
    if left.len() != right.len() {
        return false;
    }
    for i in 0..left.len()
        invariant
            left@ == a@,
            right@ == b@,
            left@.len() == right@.len(),
            forall|j: int| 0 <= j < i ==> upper_ascii(#[trigger] a@[j]) == upper_ascii(b@[j]),
    {
        if to_upper_ascii(left[i]) != to_upper_ascii(right[i]) {
            return false;
        }
    }
    true
}

/// The text in upper case, as Unicode maps it.
pub uninterp spec fn upper_text(s: Seq<char>) -> Seq<char>;

/// `str::to_uppercase`. Claims that the result depends on the text alone, and
/// that ASCII letters go to their capitals where the text is ASCII.
#[verifier::external_body]
pub(crate) fn uppercase(s: &str) -> (r: String)
    ensures
        r@ == upper_text(s@),
        (forall|i: int| 0 <= i < s@.len() ==> (#[trigger] s@[i]) as int <= 127) ==> r@ == s@.map_values(
            |c: char| upper_ascii(c),
        ),
{
    s.to_uppercase()
}

/// The texts with `sep` between them.
pub open spec fn joined(parts: Seq<Seq<char>>, sep: Seq<char>) -> Seq<char>
    decreases parts.len(),
{
    if parts.len() == 0 {
        Seq::<char>::empty()
    } else if parts.len() == 1 {
        parts[0]
    } else {
        joined(parts.drop_last(), sep) + sep + parts.last()
    }
}

/// The characters of each text.
pub open spec fn views(parts: Seq<String>) -> Seq<Seq<char>> {
    parts.map_values(|s: String| s@)
}

/// The texts with `sep` between them.
pub fn join(parts: &Vec<String>, sep: &str) -> (r: String)
    ensures
        r@ == joined(views(parts@), sep@),
{
    let mut r: String = String::new();
    for i in 0..parts.len()
        invariant
            r@ == joined(views(parts@).subrange(0, i as int), sep@),
    {
        let ghost upto = views(parts@).subrange(0, i + 1);
        assert(upto.drop_last() =~= views(parts@).subrange(0, i as int));
        assert(upto.last() == parts@[i as int]@);
        if i > 0 {
            r.append(sep);
        }
        r.append(parts[i].as_str());
        assert(r@ =~= joined(upto, sep@));
    }
    assert(views(parts@).subrange(0, parts@.len() as int) =~= views(parts@));
    r
}

/// `0x` and the number in upper-case hexadecimal.
pub open spec fn hex_prefixed(n: nat) -> Seq<char> {
    "0x"@ + hex_padded(n, 1)
}

/// Appends `0x` and the number in upper-case hexadecimal.
pub fn push_hex_prefixed(out: &mut String, n: u64)
    ensures
        final(out)@ == old(out)@ + hex_prefixed(n as nat),
{
    out.append("0x");
    push_hex(out, n, 1);
    assert(out@ =~= old(out)@ + hex_prefixed(n as nat));
}

/// `s` ends with `pat`, but for the case of ASCII letters.
pub open spec fn ends_ignoring_case(s: Seq<char>, pat: Seq<char>) -> bool {
    s.len() >= pat.len() && same_but_case(s.subrange(s.len() - pat.len(), s.len() as int), pat)
}

/// Whether `s` ends with `pat`, but for the case of ASCII letters.
pub fn ends_with_ignoring_case(s: &str, pat: &str) -> (r: bool)
    ensures
        r == ends_ignoring_case(s@, pat@),
{
    let whole: Vec<char> = chars_of(s);
    let part: Vec<char> = chars_of(pat);
    if whole.len() < part.len() {
        return false;
    }
    let tail: String = string_of(
        vstd::slice::slice_subrange(whole.as_slice(), whole.len() - part.len(), whole.len()),
    );
    equals_ignoring_case(tail.as_str(), pat)
}

/// The lower-case letter of an ASCII letter; any other character itself.
pub open spec fn lower_ascii(c: char) -> char {
    if 'A' <= c <= 'Z' {
        ((c as int) + 32) as char
    } else {
        c
    }
}

/// The text in lower case, as Unicode maps it.
pub uninterp spec fn lower_text(s: Seq<char>) -> Seq<char>;

/// `str::to_lowercase`. Claims that the result depends on the text alone, and
/// that ASCII capitals go to their small letters where the text is ASCII.
#[verifier::external_body]
pub(crate) fn lowercase(s: &str) -> (r: String)
    ensures
        r@ == lower_text(s@),
        (forall|i: int| 0 <= i < s@.len() ==> (#[trigger] s@[i]) as int <= 127) ==> r@ == s@.map_values(
            |c: char| lower_ascii(c),
        ),
{
    s.to_lowercase()
}

/// A number in lower-case hexadecimal, without zeros before it.
pub open spec fn lower_hex(n: nat) -> Seq<char> {
    let digits = number_text(n, 16);
    Seq::new(digits.len(), |i: int| lower_digit(digits[i]))
}

/// A hexadecimal digit in lower case.
pub open spec fn lower_digit(c: char) -> char {
    if c == 'A' {
        'a'
    } else if c == 'B' {
        'b'
    } else if c == 'C' {
        'c'
    } else if c == 'D' {
        'd'
    } else if c == 'E' {
        'e'
    } else if c == 'F' {
        'f'
    } else {
        c
    }
}

fn lower(c: char) -> (r: char)
    ensures
        r == lower_digit(c),
{
    match c {
        'A' => 'a',
        'B' => 'b',
        'C' => 'c',
        'D' => 'd',
        'E' => 'e',
        'F' => 'f',
        _ => c,
    }
}

/// A number as a text in lower-case hexadecimal.
pub fn lower_hex_text(n: u64) -> (r: String)
    ensures
        r@ == lower_hex(n as nat),
{
    let mut digits: String = String::new();
    push_number(&mut digits, n, 16);
    assert(digits@ =~= number_text(n as nat, 16));
    let chars: Vec<char> = chars_of(digits.as_str());
    let mut r: String = String::new();
    for i in 0..chars.len()
        invariant
            chars@ == number_text(n as nat, 16),
            r@ =~= lower_hex(n as nat).subrange(0, i as int),
    {
        r.push(lower(chars[i]));
    }
    assert(r@ =~= lower_hex(n as nat));
    r
}

} // verus!
