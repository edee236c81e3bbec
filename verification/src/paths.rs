//! Paths as sequences of names: what a path's root is, which names follow it, and what
//! is left of a path below a directory.

use vstd::prelude::*;
use crate::text;

verus! {

/// The platform whose rules a path is read by.
#[derive(Clone, Copy, PartialEq, Eq, Debug, Structural)]
pub enum PathStyle {
    Unix,
    Windows,
}

/// A character that parts the names of a path.
pub open spec fn is_separator(style: PathStyle, c: char) -> bool {
    c == '/' || (style == PathStyle::Windows && c == '\\')
}

fn separates(style: PathStyle, c: char) -> (r: bool)
    ensures
        r == is_separator(style, c),
{
    c == '/' || (style == PathStyle::Windows && c == '\\')
}

/// Where the run of characters from `i` on that holds no separator ends.
pub open spec fn name_end(style: PathStyle, s: Seq<char>, i: int) -> int
    decreases s.len() - i,
{
    if 0 <= i < s.len() && !is_separator(style, s[i]) {
        name_end(style, s, i + 1)
    } else {
        i
    }
}

/// A name ends after it starts, before a separator or at the end of the text.
pub proof fn lemma_name_end(style: PathStyle, s: Seq<char>, i: int)
    requires
        0 <= i <= s.len(),
    ensures
        i <= name_end(style, s, i) <= s.len(),
        i < s.len() && !is_separator(style, s[i]) ==> i < name_end(style, s, i),
        name_end(style, s, i) < s.len() ==> is_separator(style, s[name_end(style, s, i)]),
        forall|k: int| i <= k < name_end(style, s, i) ==> !is_separator(style, #[trigger] s[k]),
    decreases s.len() - i,
{
    if i < s.len() && !is_separator(style, s[i]) {
        lemma_name_end(style, s, i + 1);
    }
}

fn end_of_name(style: PathStyle, s: &Vec<char>, i: usize) -> (r: usize)
    requires
        i <= s@.len(),
    ensures
        r == name_end(style, s@, i as int),
        i <= r <= s@.len(),
{
    proof {
        lemma_name_end(style, s@, i as int);
    }
    let mut k: usize = i;
    while k < s.len() && !separates(style, s[k])
        invariant
            i <= k <= s@.len(),
            name_end(style, s@, k as int) == name_end(style, s@, i as int),
        decreases s@.len() - k,
    {
        k = k + 1;
    }
    k
}

/// An ASCII letter.
pub open spec fn is_letter(c: char) -> bool {
    'a' <= c <= 'z' || 'A' <= c <= 'Z'
}

/// The path starts with a drive letter and a colon.
pub open spec fn has_drive(style: PathStyle, s: Seq<char>) -> bool {
    style == PathStyle::Windows && s.len() >= 2 && is_letter(s[0]) && s[1] == ':'
}

/// The path starts with two separators, a server's name, one separator and the name of
/// a share.
pub open spec fn has_share(style: PathStyle, s: Seq<char>) -> bool {
    let server = name_end(style, s, 2);
    &&& style == PathStyle::Windows
    &&& s.len() > 2
    &&& is_separator(style, s[0])
    &&& is_separator(style, s[1])
    &&& server > 2
    &&& server + 1 < s.len()
    &&& !is_separator(style, s[server + 1])
}

/// Where a path's drive or share ends; 0 where it has neither.
pub open spec fn prefix_end(style: PathStyle, s: Seq<char>) -> int {
    if has_share(style, s) {
        name_end(style, s, name_end(style, s, 2) + 1)
    } else if has_drive(style, s) {
        2
    } else {
        0
    }
}

/// The separator that makes a path start at a root is written out.
pub open spec fn has_root(style: PathStyle, s: Seq<char>) -> bool {
    let k = prefix_end(style, s);
    k < s.len() && is_separator(style, s[k])
}

/// The path starts at a root. That of a share is there whether written out or not.
pub open spec fn is_rooted(style: PathStyle, s: Seq<char>) -> bool {
    has_root(style, s) || has_share(style, s)
}

/// The path says where it starts. Where there are drives, one of them or a share has to
/// be named.
pub open spec fn is_absolute_path(style: PathStyle, s: Seq<char>) -> bool {
    match style {
        PathStyle::Unix => is_rooted(style, s),
        PathStyle::Windows => is_rooted(style, s) && prefix_end(style, s) > 0,
    }
}

/// What stands before a path's names: its drive or share, and its root.
pub open spec fn head(style: PathStyle, s: Seq<char>) -> Seq<Seq<char>> {
    let root = if is_rooted(style, s) {
        seq![seq!['/']]
    } else {
        Seq::empty()
    };
    if has_share(style, s) {
        let server = name_end(style, s, 2);
        let share = s.subrange(server + 1, prefix_end(style, s));
        seq![seq!['/', '/'] + s.subrange(2, server) + seq!['/'] + share] + root
    } else if has_drive(style, s) {
        seq![seq![text::upper_ascii(s[0]), ':']] + root
    } else {
        root
    }
}

/// A dot that names the directory it stands in. At the very start of a path without a
/// root it is kept.
pub open spec fn is_dot(s: Seq<char>, i: int, end: int, lead: int) -> bool {
    end == i + 1 && s[i] == '.' && i != lead
}

/// From where to where the names from `i` on reach, without the dots.
pub open spec fn spans(style: PathStyle, s: Seq<char>, i: int, lead: int) -> Seq<(int, int)>
    decreases s.len() - i,
{
    if !(0 <= i < s.len()) {
        Seq::empty()
    } else if is_separator(style, s[i]) {
        spans(style, s, i + 1, lead)
    } else {
        let end = name_end(style, s, i);
        proof {
            lemma_name_end(style, s, i);
        }
        if is_dot(s, i, end, lead) {
            spans(style, s, end, lead)
        } else {
            seq![(i, end)] + spans(style, s, end, lead)
        }
    }
}

/// Where a dot would be kept: at the start of a path without a root.
pub open spec fn dot_place(style: PathStyle, s: Seq<char>) -> int {
    if is_rooted(style, s) {
        -1
    } else {
        prefix_end(style, s)
    }
}

/// From where to where a path's names reach.
pub open spec fn name_spans(style: PathStyle, s: Seq<char>) -> Seq<(int, int)> {
    spans(style, s, prefix_end(style, s), dot_place(style, s))
}

/// The texts at the spans.
pub open spec fn texts(s: Seq<char>, at: Seq<(int, int)>) -> Seq<Seq<char>> {
    at.map_values(|p: (int, int)| s.subrange(p.0, p.1))
}

/// A path's names.
pub open spec fn names(style: PathStyle, s: Seq<char>) -> Seq<Seq<char>> {
    texts(s, name_spans(style, s))
}

/// What a path is made of: its drive or share, its root, and its names. Separators that
/// follow one another are one, and a dot is no name.
pub open spec fn components(style: PathStyle, s: Seq<char>) -> Seq<Seq<char>> {
    head(style, s) + names(style, s)
}

/// The path lies below the directory, or is the directory itself.
pub open spec fn is_below(style: PathStyle, s: Seq<char>, dir: Seq<char>) -> bool {
    components(style, dir).is_prefix_of(components(style, s))
}

/// Where the names end: nothing but separators and dots follows.
pub open spec fn names_end(style: PathStyle, s: Seq<char>) -> int {
    let at = name_spans(style, s);
    if at.len() > 0 {
        at.last().1
    } else if has_root(style, s) {
        prefix_end(style, s) + 1
    } else {
        prefix_end(style, s)
    }
}

/// Where the path is picked up again after its first `k` components.
pub open spec fn rest_start(style: PathStyle, s: Seq<char>, k: int) -> int {
    let h = head(style, s).len();
    let at = name_spans(style, s);
    if k == 0 {
        0
    } else if k < h {
        prefix_end(style, s)
    } else if k - h < at.len() {
        at[k - h].0
    } else {
        names_end(style, s)
    }
}

/// What is left of a path below a directory, as it is written; a path that does not
/// lie below it stays as it is.
pub open spec fn relative_path(style: PathStyle, s: Seq<char>, dir: Seq<char>) -> Seq<char> {
    if is_below(style, s, dir) {
        s.subrange(
            rest_start(style, s, components(style, dir).len() as int),
            names_end(style, s),
        )
    } else {
        s
    }
}

/// The characters of each text.
pub open spec fn char_views(parts: Seq<Vec<char>>) -> Seq<Seq<char>> {
    parts.map_values(|v: Vec<char>| v@)
}

fn cut(s: &Vec<char>, from: usize, to: usize) -> (r: Vec<char>)
    requires
        from <= to <= s@.len(),
    ensures
        r@ == s@.subrange(from as int, to as int),
{
    let mut r: Vec<char> = Vec::new();
    for i in from..to
        invariant
            from <= to <= s@.len(),
            r@ == s@.subrange(from as int, i as int),
    {
        r.push(s[i]);
        assert(r@ =~= s@.subrange(from as int, i + 1));
    }
    r
}

fn drive_named(style: PathStyle, s: &Vec<char>) -> (r: bool)
    ensures
        r == has_drive(style, s@),
{
    style == PathStyle::Windows && s.len() >= 2 && (('a' <= s[0] && s[0] <= 'z') || ('A' <= s[0]
        && s[0] <= 'Z')) && s[1] == ':'
}

/// Where the server's name ends in a path that names a share; `None` where it names none.
fn server_end(style: PathStyle, s: &Vec<char>) -> (r: Option<usize>)
    ensures
        r is Some == has_share(style, s@),
        r is Some ==> r->0 == name_end(style, s@, 2) && 2 < r->0 && r->0 + 1 < s@.len()
            && r->0 < usize::MAX,
{
    if style != PathStyle::Windows || s.len() <= 2 || !separates(style, s[0]) || !separates(
        style,
        s[1],
    ) {
        return None;
    }
    let server: usize = end_of_name(style, s, 2);
    if server > 2 && server < s.len() - 1 && !separates(style, s[server + 1]) {
        Some(server)
    } else {
        None
    }
}

/// A path's drive or share ends inside the path.
proof fn lemma_prefix_end(style: PathStyle, s: Seq<char>)
    ensures
        0 <= prefix_end(style, s) <= s.len(),
        has_share(style, s) ==> 2 < name_end(style, s, 2) && name_end(style, s, 2) + 1
            < prefix_end(style, s),
{
    if has_share(style, s) {
        lemma_name_end(style, s, 2);
        lemma_name_end(style, s, name_end(style, s, 2) + 1);
    }
}

fn end_of_prefix(style: PathStyle, s: &Vec<char>) -> (r: usize)
    ensures
        r == prefix_end(style, s@),
        r <= s@.len(),
{
    proof {
        lemma_prefix_end(style, s@);
    }
    match server_end(style, s) {
        Some(server) => end_of_name(style, s, server + 1),
        None => if drive_named(style, s) {
            2
        } else {
            0
        },
    }
}

fn root_written(style: PathStyle, s: &Vec<char>) -> (r: bool)
    ensures
        r == has_root(style, s@),
{
    let k: usize = end_of_prefix(style, s);
    k < s.len() && separates(style, s[k])
}

fn rooted(style: PathStyle, s: &Vec<char>) -> (r: bool)
    ensures
        r == is_rooted(style, s@),
{
    root_written(style, s) || server_end(style, s).is_some()
}

/// Whether a path says where it starts.
pub fn is_absolute(style: PathStyle, p: &str) -> (r: bool)
    ensures
        r == is_absolute_path(style, p@),
{
    let s: Vec<char> = text::chars_of(p);
    match style {
        PathStyle::Unix => rooted(style, &s),
        PathStyle::Windows => rooted(style, &s) && end_of_prefix(style, &s) > 0,
    }
}

fn head_of(style: PathStyle, s: &Vec<char>) -> (r: Vec<Vec<char>>)
    ensures
        char_views(r@) == head(style, s@),
{
    let mut r: Vec<Vec<char>> = Vec::new();
    let ghost root = if is_rooted(style, s@) {
        seq![seq!['/']]
    } else {
        Seq::empty()
    };
    proof {
        lemma_prefix_end(style, s@);
    }
    match server_end(style, s) {
        Some(server) => {
            let end: usize = end_of_prefix(style, s);
            let mut whole: Vec<char> = Vec::new();
            whole.push('/');
            whole.push('/');
            let mut name: Vec<char> = cut(s, 2, server);
            whole.append(&mut name);
            whole.push('/');
            let mut share: Vec<char> = cut(s, server + 1, end);
            whole.append(&mut share);
            assert(whole@ =~= seq!['/', '/'] + s@.subrange(2, server as int) + seq!['/']
                + s@.subrange(server + 1, end as int));
            r.push(whole);
        },
        None => if drive_named(style, s) {
            let mut drive: Vec<char> = Vec::new();
            drive.push(text::to_upper_ascii(s[0]));
            drive.push(':');
            assert(drive@ =~= seq![text::upper_ascii(s@[0]), ':']);
            r.push(drive);
        },
    }
    if rooted(style, s) {
        let mut slash: Vec<char> = Vec::new();
        slash.push('/');
        assert(slash@ =~= seq!['/']);
        r.push(slash);
    }
    assert(char_views(r@) =~= head(style, s@));
    r
}

/// Spans as they are kept.
pub open spec fn span_views(at: Seq<(usize, usize)>) -> Seq<(int, int)> {
    at.map_values(|p: (usize, usize)| (p.0 as int, p.1 as int))
}

/// A span lies in the text from `i` on, holds a character, and ends before a separator
/// or at the end.
pub open spec fn is_span(style: PathStyle, s: Seq<char>, i: int, p: (int, int)) -> bool {
    &&& i <= p.0 < p.1 <= s.len()
    &&& p.1 == name_end(style, s, p.0)
    &&& p.1 < s.len() ==> is_separator(style, s[p.1])
}

/// The names lie in their order inside the text.
proof fn lemma_spans(style: PathStyle, s: Seq<char>, i: int, lead: int)
    requires
        0 <= i <= s.len(),
    ensures
        forall|k: int|
            0 <= k < spans(style, s, i, lead).len() ==> is_span(
                style,
                s,
                i,
                #[trigger] spans(style, s, i, lead)[k],
            ) && spans(style, s, i, lead)[k].1 <= spans(style, s, i, lead).last().1,
    decreases s.len() - i,
{
    let now = spans(style, s, i, lead);
    if i < s.len() {
        if is_separator(style, s[i]) {
            lemma_spans(style, s, i + 1, lead);
            let rest = spans(style, s, i + 1, lead);
            assert forall|k: int| 0 <= k < now.len() implies is_span(style, s, i, #[trigger] now[k])
                && now[k].1 <= now.last().1 by {
                assert(now[k] == rest[k]);
            }
        } else {
            let end = name_end(style, s, i);
            lemma_name_end(style, s, i);
            lemma_spans(style, s, end, lead);
            let rest = spans(style, s, end, lead);
            if is_dot(s, i, end, lead) {
                assert forall|k: int| 0 <= k < now.len() implies is_span(
                    style,
                    s,
                    i,
                    #[trigger] now[k],
                ) && now[k].1 <= now.last().1 by {
                    assert(now[k] == rest[k]);
                }
            } else {
                assert(now == seq![(i, end)] + rest);
                assert forall|k: int| 0 <= k < now.len() implies is_span(
                    style,
                    s,
                    i,
                    #[trigger] now[k],
                ) && now[k].1 <= now.last().1 by {
                    if k > 0 {
                        assert(now[k] == rest[k - 1]);
                    }
                    if rest.len() > 0 {
                        assert(now.last() == rest[rest.len() - 1]);
                    }
                }
            }
        }
    }
}

fn spans_of(style: PathStyle, s: &Vec<char>) -> (r: Vec<(usize, usize)>)
    ensures
        span_views(r@) == name_spans(style, s@),
        forall|k: int|
            0 <= k < r@.len() ==> (#[trigger] r@[k]).0 < r@[k].1 <= s@.len(),
{
    let from: usize = end_of_prefix(style, s);
    let free: bool = !rooted(style, s);
    let ghost lead = dot_place(style, s@);
    let ghost all = name_spans(style, s@);
    let mut r: Vec<(usize, usize)> = Vec::new();
    let mut i: usize = from;
    assert(span_views(r@) + spans(style, s@, from as int, lead) =~= all);
    while i < s.len()
        invariant
            from <= i <= s@.len(),
            lead == (if free {
                from as int
            } else {
                -1
            }),
            span_views(r@) + spans(style, s@, i as int, lead) == all,
            forall|k: int| 0 <= k < r@.len() ==> (#[trigger] r@[k]).0 < r@[k].1 <= s@.len(),
        decreases s@.len() - i,
    {
        if separates(style, s[i]) {
            i = i + 1;
        } else {
            proof {
                lemma_name_end(style, s@, i as int);
            }
            let end: usize = end_of_name(style, s, i);
            if !(end == i + 1 && s[i] == '.' && !(free && i == from)) {
                let ghost before = r@;
                let ghost rest = spans(style, s@, end as int, lead);
                r.push((i, end));
                assert(span_views(r@) =~= span_views(before).push((i as int, end as int)));
                assert(span_views(r@) + rest =~= span_views(before) + (seq![
                    (i as int, end as int),
                ] + rest));
            }
            i = end;
        }
    }
    assert(spans(style, s@, i as int, lead) =~= Seq::empty());
    assert(span_views(r@) =~= all);
    r
}

fn components_of(style: PathStyle, s: &Vec<char>, at: &Vec<(usize, usize)>) -> (r: Vec<Vec<char>>)
    requires
        span_views(at@) == name_spans(style, s@),
        forall|k: int| 0 <= k < at@.len() ==> (#[trigger] at@[k]).0 < at@[k].1 <= s@.len(),
    ensures
        char_views(r@) == components(style, s@),
{
    let mut r: Vec<Vec<char>> = head_of(style, s);
    let ghost h = head(style, s@);
    assert(char_views(r@) =~= h + names(style, s@).subrange(0, 0));
    for i in 0..at.len()
        invariant
            span_views(at@) == name_spans(style, s@),
            forall|k: int| 0 <= k < at@.len() ==> (#[trigger] at@[k]).0 < at@[k].1 <= s@.len(),
            names(style, s@).len() == at@.len(),
            char_views(r@) == h + names(style, s@).subrange(0, i as int),
    {
        let ghost before = r@;
        let one: Vec<char> = cut(s, at[i].0, at[i].1);
        assert(span_views(at@)[i as int] == (at@[i as int].0 as int, at@[i as int].1 as int));
        assert(one@ == names(style, s@)[i as int]);
        r.push(one);
        assert(char_views(r@) =~= char_views(before).push(one@));
        assert(char_views(r@) =~= h + names(style, s@).subrange(0, i + 1));
    }
    assert(names(style, s@).subrange(0, at@.len() as int) =~= names(style, s@));
    r
}

fn same_chars(a: &Vec<char>, b: &Vec<char>) -> (r: bool)
    ensures
        r == (a@ == b@),
{
    if a.len() != b.len() {
        return false;
    }
    for i in 0..a.len()
        invariant
            a@.len() == b@.len(),
            forall|k: int| 0 <= k < i ==> a@[k] == b@[k],
    {
        if a[i] != b[i] {
            return false;
        }
    }
    assert(a@ =~= b@);
    true
}

fn begins(whole: &Vec<Vec<char>>, part: &Vec<Vec<char>>) -> (r: bool)
    ensures
        r == char_views(part@).is_prefix_of(char_views(whole@)),
{
    if part.len() > whole.len() {
        return false;
    }
    let ghost a = char_views(part@);
    let ghost b = char_views(whole@);
    for i in 0..part.len()
        invariant
            part@.len() <= whole@.len(),
            a == char_views(part@),
            b == char_views(whole@),
            forall|k: int| 0 <= k < i ==> a[k] == b[k],
    {
        if !same_chars(&part[i], &whole[i]) {
            assert(a[i as int] != b[i as int]);
            assert(b.subrange(0, a.len() as int)[i as int] == b[i as int]);
            return false;
        }
        assert(a[i as int] == b[i as int]);
    }
    assert(a =~= b.subrange(0, a.len() as int));
    true
}

/// The stretch of the path that `relative_path` keeps lies inside the path.
proof fn lemma_rest(style: PathStyle, s: Seq<char>, k: int)
    requires
        0 <= k,
    ensures
        0 <= rest_start(style, s, k) <= names_end(style, s) <= s.len(),
{
    lemma_prefix_end(style, s);
    lemma_spans(style, s, prefix_end(style, s), dot_place(style, s));
    let at = name_spans(style, s);
    if at.len() > 0 {
        assert(at.last() == at[at.len() - 1]);
    }
}

/// What is left of a path below a directory; any other path as it is.
pub fn relative(style: PathStyle, p: &str, dir: &str) -> (r: String)
    ensures
        r@ == relative_path(style, p@, dir@),
{
    let s: Vec<char> = text::chars_of(p);
    let d: Vec<char> = text::chars_of(dir);
    let at: Vec<(usize, usize)> = spans_of(style, &s);
    let dir_at: Vec<(usize, usize)> = spans_of(style, &d);
    let whole: Vec<Vec<char>> = components_of(style, &s, &at);
    let part: Vec<Vec<char>> = components_of(style, &d, &dir_at);
    if !begins(&whole, &part) {
        return p.to_owned();
    }
    let k: usize = part.len();
    let h: usize = whole.len() - at.len();
    proof {
        lemma_rest(style, s@, k as int);
        assert(char_views(part@).len() == k);
        assert(char_views(whole@).len() == head(style, s@).len() + at@.len());
        assert(forall|j: int|
            0 <= j < at@.len() ==> span_views(at@)[j] == (
                (#[trigger] at@[j]).0 as int,
                at@[j].1 as int,
            ));
    }
    let first: usize = end_of_prefix(style, &s);
    let total: usize = s.len();
    let end: usize = if at.len() > 0 {
        at[at.len() - 1].1
    } else if first < total && root_written(style, &s) {
        first + 1
    } else {
        first
    };
    let start: usize = if k == 0 {
        0
    } else if k < h {
        first
    } else if k - h < at.len() {
        at[k - h].0
    } else {
        end
    };
    let kept: Vec<char> = cut(&s, start, end);
    text::string_of(kept.as_slice())
}

/// Spans moved on by `d` places.
pub open spec fn moved_spans(at: Seq<(int, int)>, d: int) -> Seq<(int, int)> {
    at.map_values(|p: (int, int)| (p.0 + d, p.1 + d))
}

/// A name inside a window of the text that ends at a separator ends where it does in
/// the whole text.
proof fn lemma_window_end(style: PathStyle, s: Seq<char>, a: int, b: int, i: int)
    requires
        0 <= a <= i <= b <= s.len(),
        b < s.len() ==> is_separator(style, s[b]),
    ensures
        name_end(style, s.subrange(a, b), i - a) + a == name_end(style, s, i),
        i <= name_end(style, s, i) <= b,
    decreases b - i,
{
    let w = s.subrange(a, b);
    if i < b {
        assert(w[i - a] == s[i]);
        if !is_separator(style, s[i]) {
            lemma_window_end(style, s, a, b, i + 1);
        }
    }
}

/// The names of a text are those of a window of it that ends at a separator, and those
/// behind the window.
proof fn lemma_window(style: PathStyle, s: Seq<char>, a: int, b: int, i: int)
    requires
        0 <= a <= i <= b <= s.len(),
        b < s.len() ==> is_separator(style, s[b]),
    ensures
        spans(style, s, i, -1) == moved_spans(spans(style, s.subrange(a, b), i - a, -1), a)
            + spans(style, s, b, -1),
    decreases b - i,
{
    let w = s.subrange(a, b);
    let inner = spans(style, w, i - a, -1);
    let rest = spans(style, s, b, -1);
    if i == b {
        assert(moved_spans(inner, a) + rest =~= rest);
    } else {
        assert(w[i - a] == s[i]);
        if is_separator(style, s[i]) {
            lemma_window(style, s, a, b, i + 1);
        } else {
            let end = name_end(style, s, i);
            lemma_name_end(style, s, i);
            lemma_window_end(style, s, a, b, i);
            lemma_window(style, s, a, b, end);
            let later = spans(style, w, end - a, -1);
            if !is_dot(s, i, end, -1) {
                assert(inner == seq![(i - a, end - a)] + later);
                assert(moved_spans(inner, a) =~= seq![(i, end)] + moved_spans(later, a));
                assert(moved_spans(inner, a) + rest =~= seq![(i, end)] + (moved_spans(later, a)
                    + rest));
            }
        }
    }
}

/// The names from the start of a name on are that name and those behind it.
proof fn lemma_tail(style: PathStyle, s: Seq<char>, i: int, j: int)
    requires
        0 <= i <= s.len(),
        0 <= j < spans(style, s, i, -1).len(),
    ensures
        spans(style, s, spans(style, s, i, -1)[j].0, -1) == spans(style, s, i, -1).skip(j),
        spans(style, s, spans(style, s, i, -1)[j].1, -1) == spans(style, s, i, -1).skip(j + 1),
    decreases s.len() - i,
{
    let at = spans(style, s, i, -1);
    if is_separator(style, s[i]) {
        lemma_tail(style, s, i + 1, j);
    } else {
        let end = name_end(style, s, i);
        lemma_name_end(style, s, i);
        let rest = spans(style, s, end, -1);
        if is_dot(s, i, end, -1) {
            lemma_tail(style, s, end, j);
        } else if j == 0 {
            assert(at.skip(0) =~= at);
            assert(at.skip(1) =~= rest);
        } else {
            lemma_tail(style, s, end, j - 1);
            assert(at[j] == rest[j - 1]);
            assert(at.skip(j) =~= rest.skip(j - 1));
            assert(at.skip(j + 1) =~= rest.skip(j));
        }
    }
}

/// What a path starts with does not depend on what follows a separator behind it.
proof fn lemma_head_stays(style: PathStyle, dir: Seq<char>, whole: Seq<char>)
    requires
        is_absolute_path(style, dir),
        dir.len() < whole.len(),
        whole.subrange(0, dir.len() as int) == dir,
        is_separator(style, whole[dir.len() as int]),
    ensures
        prefix_end(style, whole) == prefix_end(style, dir),
        is_rooted(style, whole),
        head(style, whole) == head(style, dir),
{
    let n = dir.len() as int;
    assert(forall|k: int| 0 <= k < n ==> #[trigger] whole[k] == dir[k]);
    lemma_prefix_end(style, dir);
    if style == PathStyle::Windows {
        if n >= 2 {
            lemma_window_end(style, whole, 0, n, 2);
            lemma_name_end(style, whole, 2);
        }
        let server = name_end(style, dir, 2);
        if has_share(style, dir) {
            lemma_window_end(style, whole, 0, n, server + 1);
            assert(has_share(style, whole));
            let end = prefix_end(style, dir);
            assert(whole.subrange(2, server) =~= dir.subrange(2, server));
            assert(whole.subrange(server + 1, end) =~= dir.subrange(server + 1, end));
        } else {
            assert(has_drive(style, dir));
            assert(!is_letter('/') && !is_letter('\\'));
            assert(!has_share(style, whole));
        }
    }
}

/// The names that are left of an absolute path below an absolute directory.
proof fn lemma_rest_names(style: PathStyle, p: Seq<char>, dir: Seq<char>)
    requires
        is_absolute_path(style, p),
        is_absolute_path(style, dir),
        is_below(style, p, dir),
    ensures
        texts(relative_path(style, p, dir), spans(style, relative_path(style, p, dir), 0, -1))
            == components(style, p).skip(components(style, dir).len() as int),
{
    let k = components(style, dir).len() as int;
    let h = head(style, p).len() as int;
    let at = name_spans(style, p);
    let r = relative_path(style, p, dir);
    let left = components(style, p).skip(k);
    assert(h <= head(style, dir).len() <= k);
    lemma_prefix_end(style, p);
    lemma_spans(style, p, prefix_end(style, p), -1);
    if k - h < at.len() {
        let st = at[k - h].0;
        let en = at.last().1;
        assert(at.last() == at[at.len() - 1]);
        lemma_tail(style, p, prefix_end(style, p), k - h);
        lemma_tail(style, p, prefix_end(style, p), at.len() - 1);
        assert(at.skip(at.len() as int) =~= Seq::<(int, int)>::empty());
        assert(is_span(style, p, prefix_end(style, p), at[k - h]));
        assert(at[k - h].1 <= en);
        assert(r == p.subrange(st, en));
        lemma_window(style, p, st, en, st);
        let inner = spans(style, r, 0, -1);
        lemma_spans(style, r, 0, -1);
        assert(moved_spans(inner, st) =~= at.skip(k - h));
        assert(texts(r, inner).len() == left.len());
        assert forall|i: int| 0 <= i < left.len() implies texts(r, inner)[i] == left[i] by {
            let q = inner[i];
            assert(is_span(style, r, 0, q));
            assert(moved_spans(inner, st)[i] == (q.0 + st, q.1 + st));
            assert(at.skip(k - h)[i] == at[k - h + i]);
            assert(r.subrange(q.0, q.1) =~= p.subrange(q.0 + st, q.1 + st));
            assert(left[i] == names(style, p)[k - h + i]);
        }
        assert(texts(r, inner) =~= left);
    } else {
        assert(k == h + at.len());
        assert(r =~= Seq::<char>::empty());
        assert(texts(r, spans(style, r, 0, -1)) =~= left);
    }
}

/// What lies inside a directory is found again when the directory is moved: under the
/// new directory its relative path names what its own path names under the old one.
pub proof fn law_paths_move_with_their_project(
    style: PathStyle,
    p: Seq<char>,
    dir: Seq<char>,
    moved: Seq<char>,
)
    requires
        is_absolute_path(style, p),
        is_absolute_path(style, dir),
        is_absolute_path(style, moved),
        is_below(style, p, dir),
    ensures
        components(style, moved + seq!['/'] + relative_path(style, p, dir)) == components(
            style,
            moved,
        ) + components(style, p).skip(components(style, dir).len() as int),
        is_below(style, moved + seq!['/'] + relative_path(style, p, dir), moved),
{
    let r = relative_path(style, p, dir);
    let t = moved + seq!['/'] + r;
    let n = moved.len() as int;
    assert(t.subrange(0, n) =~= moved);
    assert(t[n] == '/');
    lemma_head_stays(style, moved, t);
    lemma_prefix_end(style, moved);
    let from = prefix_end(style, moved);
    lemma_window(style, t, 0, n, from);
    lemma_window(style, t, n + 1, t.len() as int, n + 1);
    assert(t.subrange(n + 1, t.len() as int) =~= r);
    let first = spans(style, moved, from, -1);
    let second = spans(style, r, 0, -1);
    lemma_spans(style, moved, from, -1);
    lemma_spans(style, r, 0, -1);
    let at = name_spans(style, t);
    assert(moved_spans(first, 0) =~= first);
    assert(spans(style, t, t.len() as int, -1) =~= Seq::<(int, int)>::empty());
    assert(spans(style, t, n, -1) == spans(style, t, n + 1, -1));
    assert(at =~= first + moved_spans(second, n + 1));
    assert(texts(t, at) =~= texts(moved, first) + texts(r, second)) by {
        assert forall|i: int| 0 <= i < at.len() implies texts(t, at)[i] == (texts(moved, first)
            + texts(r, second))[i] by {
            if i < first.len() {
                let q = first[i];
                assert(is_span(style, moved, from, q));
                assert(t.subrange(q.0, q.1) =~= moved.subrange(q.0, q.1));
            } else {
                let q = second[i - first.len()];
                assert(is_span(style, r, 0, q));
                assert(at[i] == (q.0 + n + 1, q.1 + n + 1));
                assert(t.subrange(q.0 + n + 1, q.1 + n + 1) =~= r.subrange(q.0, q.1));
            }
        }
    }
    lemma_rest_names(style, p, dir);
    let whole = components(style, t);
    assert(whole =~= components(style, moved) + texts(r, second));
    assert(components(style, moved) =~= whole.subrange(0, components(style, moved).len() as int));
}

/// A name does not start with a separator.
proof fn lemma_span_starts(style: PathStyle, s: Seq<char>, i: int, k: int)
    requires
        0 <= i <= s.len(),
        0 <= k < spans(style, s, i, -1).len(),
    ensures
        !is_separator(style, s[spans(style, s, i, -1)[k].0]),
{
    lemma_spans(style, s, i, -1);
    let p = spans(style, s, i, -1)[k];
    assert(is_span(style, s, i, p));
}

/// A relative path leads back to the path that it was made of. It is never absolute
/// itself, unless its first name reads as a drive.
pub proof fn law_a_relative_path_leads_back(style: PathStyle, p: Seq<char>, dir: Seq<char>)
    requires
        is_absolute_path(style, p),
        is_absolute_path(style, dir),
        is_below(style, p, dir),
    ensures
        components(style, dir + seq!['/'] + relative_path(style, p, dir)) == components(style, p),
        is_absolute_path(style, relative_path(style, p, dir)) ==> has_drive(
            style,
            relative_path(style, p, dir),
        ),
{
    law_paths_move_with_their_project(style, p, dir, dir);
    let k = components(style, dir).len() as int;
    let h = head(style, p).len() as int;
    let whole = components(style, p);
    let at = name_spans(style, p);
    let r = relative_path(style, p, dir);
    assert(components(style, dir) + whole.skip(k) =~= whole);
    assert(h <= head(style, dir).len() <= k);
    lemma_prefix_end(style, p);
    lemma_spans(style, p, prefix_end(style, p), -1);
    lemma_rest(style, p, k);
    if r.len() > 0 {
        assert(k - h < at.len());
        assert(is_span(style, p, prefix_end(style, p), at[k - h]));
        assert(r[0] == p[at[k - h].0]);
        lemma_span_starts(style, p, prefix_end(style, p), k - h);
    }
}

} // verus!
