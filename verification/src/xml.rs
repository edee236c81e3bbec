//! An XML document as a list of nodes in document order, and the lookups that
//! the FlexRay importers make in it. Namespaces are ignored on tags.

use vstd::prelude::*;
use crate::text;

verus! {

/// An attribute of an element.
#[derive(Debug)]
pub struct XmlAttribute {
    /// The namespace; `None` for an attribute written without a prefix.
    pub namespace: Option<String>,
    pub name: String,
    pub value: String,
}

/// A node of the document. A node's descendants are the nodes that follow it
/// with a greater depth, up to the next one with no greater depth.
#[derive(Debug)]
pub struct XmlNode {
    /// Elements have a tag; the document itself, text and comments have none.
    pub element: bool,
    pub tag: String,
    /// The text before the first child element.
    pub text: Option<String>,
    pub attributes: Vec<XmlAttribute>,
    pub depth: usize,
}

/// What `roxmltree::Document::parse` makes of a text: the nodes in document
/// order, or the message of its error.
pub uninterp spec fn parsed_xml(text: Seq<char>) -> Result<Seq<XmlNode>, Seq<char>>;

/// `roxmltree::Document::parse`, one value for each node of `descendants`. Claims
/// only that the outcome depends on the text alone.
#[verifier::external_body]
fn parse_nodes(text: &str) -> (r: Result<Vec<XmlNode>, String>)
    ensures
        match r {
            Ok(nodes) => parsed_xml(text@) == Ok::<Seq<XmlNode>, Seq<char>>(nodes@),
            Err(e) => parsed_xml(text@) == Err::<Seq<XmlNode>, Seq<char>>(e@),
        },
{
    let doc = roxmltree::Document::parse(text).map_err(|e| e.to_string())?;
    Ok(doc.descendants().map(|n| XmlNode {
        element: n.is_element(),
        tag: n.tag_name().name().to_string(),
        text: n.text().map(|t| t.to_string()),
        attributes: n.attributes().map(|a| XmlAttribute {
            namespace: a.namespace().map(|s| s.to_string()),
            name: a.name().to_string(),
            value: a.value().to_string(),
        }).collect(),
        depth: n.ancestors().count(),
    }).collect())
}

/// Reads an XML text into its nodes.
pub fn read_xml(text: &str) -> (r: Result<Vec<XmlNode>, String>)
    ensures
        match r {
            Ok(nodes) => parsed_xml(text@) == Ok::<Seq<XmlNode>, Seq<char>>(nodes@),
            Err(e) => parsed_xml(text@) == Err::<Seq<XmlNode>, Seq<char>>(e@),
        },
{
    parse_nodes(text)
}

/// The first node at `from` or later that is no deeper than `depth`.
pub open spec fn end_from(doc: Seq<XmlNode>, depth: usize, from: int) -> int
    decreases doc.len() - from,
{
    if from < 0 || from >= doc.len() {
        doc.len() as int
    } else if doc[from].depth <= depth {
        from
    } else {
        end_from(doc, depth, from + 1)
    }
}

/// The end of the subtree of node `i`.
pub open spec fn subtree_end(doc: Seq<XmlNode>, i: int) -> int {
    end_from(doc, doc[i].depth, i + 1)
}

/// Node `i` is an element with that tag.
pub open spec fn is_tag(doc: Seq<XmlNode>, i: int, tag: Seq<char>) -> bool {
    doc[i].element && doc[i].tag@ == tag
}

/// The elements with that tag from `lo` up to `hi`, in document order.
pub open spec fn tagged(doc: Seq<XmlNode>, lo: int, hi: int, tag: Seq<char>) -> Seq<usize>
    decreases hi - lo,
{
    if hi <= lo {
        Seq::<usize>::empty()
    } else if is_tag(doc, hi - 1, tag) {
        tagged(doc, lo, hi - 1, tag).push((hi - 1) as usize)
    } else {
        tagged(doc, lo, hi - 1, tag)
    }
}

/// The elements with that tag in the subtree of node `i`, the node itself among
/// them.
pub open spec fn collected(doc: Seq<XmlNode>, i: int, tag: Seq<char>) -> Seq<usize> {
    tagged(doc, i, subtree_end(doc, i), tag)
}

/// Every entry is a node of the document.
pub open spec fn in_doc(doc: Seq<XmlNode>, nodes: Seq<usize>) -> bool {
    forall|k: int| 0 <= k < nodes.len() ==> #[trigger] nodes[k] < doc.len()
}

proof fn lemma_tagged(doc: Seq<XmlNode>, lo: int, hi: int, tag: Seq<char>)
    requires
        0 <= lo,
        hi <= doc.len() <= usize::MAX,
    ensures
        in_doc(doc, tagged(doc, lo, hi, tag)),
    decreases hi - lo,
{
    if lo < hi {
        lemma_tagged(doc, lo, hi - 1, tag);
    }
}

fn end_of(doc: &Vec<XmlNode>, i: usize) -> (r: usize)
    requires
        i < doc@.len(),
    ensures
        r == subtree_end(doc@, i as int),
        i < r <= doc@.len(),
{
    let total: usize = doc.len();
    let depth: usize = doc[i].depth;
    let mut j: usize = i + 1;
    while j < doc.len() && doc[j].depth > depth
        invariant
            i < j <= doc@.len(),
            end_from(doc@, depth, i + 1) == end_from(doc@, depth, j as int),
        decreases doc.len() - j,
    {
        j = j + 1;
    }
    j
}

/// The elements with that tag in the subtree of node `i`.
pub fn collect(doc: &Vec<XmlNode>, i: usize, tag: &str) -> (r: Vec<usize>)
    requires
        i < doc@.len(),
    ensures
        r@ == collected(doc@, i as int, tag@),
        in_doc(doc@, r@),
{
    let total: usize = doc.len();
    let end: usize = end_of(doc, i);
    let mut r: Vec<usize> = Vec::new();
    for j in i..end
        invariant
            i < end <= doc@.len(),
            r@ == tagged(doc@, i as int, j as int, tag@),
    {
        if doc[j].element && text::same_text(doc[j].tag.as_str(), tag) {
            r.push(j);
        }
    }
    proof {
        lemma_tagged(doc@, i as int, end as int, tag@);
    }
    r
}

/// The first child element of node `i` with that tag, from `j` on.
pub open spec fn child_from(
    doc: Seq<XmlNode>,
    i: int,
    j: int,
    end: int,
    tag: Seq<char>,
) -> Option<usize>
    decreases end - j,
{
    if j >= end {
        None
    } else if doc[j].depth == doc[i].depth + 1 && is_tag(doc, j, tag) {
        Some(j as usize)
    } else {
        child_from(doc, i, j + 1, end, tag)
    }
}

/// The first child element of node `i` with that tag.
pub open spec fn child_of(doc: Seq<XmlNode>, i: int, tag: Seq<char>) -> Option<usize> {
    child_from(doc, i, i + 1, subtree_end(doc, i), tag)
}

/// The first child element of node `i` with that tag.
pub fn find_child(doc: &Vec<XmlNode>, i: usize, tag: &str) -> (r: Option<usize>)
    requires
        i < doc@.len(),
    ensures
        r == child_of(doc@, i as int, tag@),
        r matches Some(c) ==> c < doc@.len(),
{
    let end: usize = end_of(doc, i);
    for j in i + 1..end
        invariant
            i < end <= doc@.len(),
            end == subtree_end(doc@, i as int),
            child_of(doc@, i as int, tag@) == child_from(doc@, i as int, j as int, end as int, tag@),
    {
        if doc[j].depth > 0 && doc[j].depth - 1 == doc[i].depth && doc[j].element
            && text::same_text(doc[j].tag.as_str(), tag) {
            return Some(j);
        }
    }
    None
}

/// The nearest node at `j` or before it that is an ancestor of a node of that
/// depth and an element with that tag.
pub open spec fn ancestor_from(
    doc: Seq<XmlNode>,
    j: int,
    depth: int,
    tag: Seq<char>,
) -> Option<usize>
    decreases j + 1,
{
    if j < 0 {
        None
    } else if doc[j].depth < depth {
        if is_tag(doc, j, tag) {
            Some(j as usize)
        } else {
            ancestor_from(doc, j - 1, doc[j].depth as int, tag)
        }
    } else {
        ancestor_from(doc, j - 1, depth, tag)
    }
}

/// The nearest of node `i` and its ancestors that is an element with that tag.
pub open spec fn ancestor_of(doc: Seq<XmlNode>, i: int, tag: Seq<char>) -> Option<usize> {
    ancestor_from(doc, i, doc[i].depth + 1, tag)
}

/// The nearest of node `i` and its ancestors that is an element with that tag.
pub fn find_ancestor(doc: &Vec<XmlNode>, i: usize, tag: &str) -> (r: Option<usize>)
    requires
        i < doc@.len(),
    ensures
        r == ancestor_of(doc@, i as int, tag@),
        r matches Some(a) ==> a < doc@.len(),
{
    let total: usize = doc.len();
    let mut j: usize = i + 1;
    let mut depth: u128 = doc[i].depth as u128 + 1;
    while j > 0
        invariant
            j <= i + 1 <= doc@.len(),
            ancestor_of(doc@, i as int, tag@) == ancestor_from(doc@, j - 1, depth as int, tag@),
        decreases j,
    {
        j = j - 1;
        if (doc[j].depth as u128) < depth {
            if doc[j].element && text::same_text(doc[j].tag.as_str(), tag) {
                return Some(j);
            }
            depth = doc[j].depth as u128;
        }
    }
    None
}

/// The value of the first attribute of that name without a namespace.
pub open spec fn attribute_in(attributes: Seq<XmlAttribute>, name: Seq<char>) -> Option<String>
    decreases attributes.len(),
{
    if attributes.len() == 0 {
        None
    } else if attributes[0].namespace is None && attributes[0].name@ == name {
        Some(attributes[0].value)
    } else {
        attribute_in(attributes.drop_first(), name)
    }
}

/// An attribute of node `i`.
pub open spec fn attribute_of(doc: Seq<XmlNode>, i: int, name: Seq<char>) -> Option<String> {
    attribute_in(doc[i].attributes@, name)
}

/// An attribute of node `i`.
pub fn attribute(doc: &Vec<XmlNode>, i: usize, name: &str) -> (r: Option<String>)
    requires
        i < doc@.len(),
    ensures
        r == attribute_of(doc@, i as int, name@),
{
    let list: &Vec<XmlAttribute> = &doc[i].attributes;
    assert(list@.subrange(0, list@.len() as int) =~= list@);
    for k in 0..list.len()
        invariant
            list@ == doc@[i as int].attributes@,
            attribute_of(doc@, i as int, name@) == attribute_in(
                list@.subrange(k as int, list@.len() as int),
                name@,
            ),
    {
        let ghost rest = list@.subrange(k as int, list@.len() as int);
        assert(rest.drop_first() =~= list@.subrange(k + 1, list@.len() as int));
        if list[k].namespace.is_none() && text::same_text(list[k].name.as_str(), name) {
            return Some(list[k].value.clone());
        }
    }
    None
}

/// The name of an element: the text of its SHORT-NAME, without white space
/// around it.
pub open spec fn name_of(doc: Seq<XmlNode>, i: int) -> Seq<char> {
    match child_of(doc, i, "SHORT-NAME"@) {
        Some(c) => match doc[c as int].text {
            Some(t) => text::trimmed(t@),
            None => text::trimmed("Unnamed"@),
        },
        None => text::trimmed("Unnamed"@),
    }
}

/// The element's SHORT-NAME text.
pub fn short_name(doc: &Vec<XmlNode>, i: usize) -> (r: String)
    requires
        i < doc@.len(),
    ensures
        r@ == name_of(doc@, i as int),
{
    match find_child(doc, i, "SHORT-NAME") {
        Some(c) => match &doc[c].text {
            Some(t) => text::trim(t.as_str()),
            None => text::trim("Unnamed"),
        },
        None => text::trim("Unnamed"),
    }
}

/// The first text among the nodes that is more than white space, trimmed.
pub open spec fn first_text(doc: Seq<XmlNode>, nodes: Seq<usize>) -> Option<Seq<char>>
    decreases nodes.len(),
{
    if nodes.len() == 0 {
        None
    } else {
        match doc[nodes[0] as int].text {
            Some(t) => if text::trimmed(t@).len() > 0 {
                Some(text::trimmed(t@))
            } else {
                first_text(doc, nodes.drop_first())
            },
            None => first_text(doc, nodes.drop_first()),
        }
    }
}

/// The first non-empty text under any of the candidate tags, inside the subtree
/// of node `i`: the tags in their order, the elements of a tag in document order.
pub open spec fn text_under(doc: Seq<XmlNode>, i: int, tags: Seq<&'static str>) -> Option<Seq<char>>
    decreases tags.len(),
{
    if tags.len() == 0 {
        None
    } else {
        let found = first_text(doc, collected(doc, i, tags[0]@));
        if found is Some {
            found
        } else {
            text_under(doc, i, tags.drop_first())
        }
    }
}

/// An optional text as its characters.
pub open spec fn text_view(t: Option<String>) -> Option<Seq<char>> {
    match t {
        Some(s) => Some(s@),
        None => None,
    }
}

/// The text, or the empty one.
pub open spec fn or_empty(t: Option<Seq<char>>) -> Seq<char> {
    match t {
        Some(s) => s,
        None => Seq::<char>::empty(),
    }
}

fn find_text(doc: &Vec<XmlNode>, nodes: &Vec<usize>) -> (r: Option<String>)
    requires
        in_doc(doc@, nodes@),
    ensures
        text_view(r) == first_text(doc@, nodes@),
{
    assert(nodes@.subrange(0, nodes@.len() as int) =~= nodes@);
    for k in 0..nodes.len()
        invariant
            in_doc(doc@, nodes@),
            first_text(doc@, nodes@) == first_text(
                doc@,
                nodes@.subrange(k as int, nodes@.len() as int),
            ),
    {
        let ghost rest = nodes@.subrange(k as int, nodes@.len() as int);
        assert(rest.drop_first() =~= nodes@.subrange(k + 1, nodes@.len() as int));
        assert(nodes@[k as int] < doc@.len());
        if let Some(t) = &doc[nodes[k]].text {
            let chars: Vec<char> = text::trim_chars(t.as_str());
            if chars.len() > 0 {
                return Some(text::string_of(&chars));
            }
        }
    }
    None
}

/// The first non-empty text under any of the candidate tags, inside the subtree
/// of node `i`.
pub fn text_of(doc: &Vec<XmlNode>, i: usize, tags: &Vec<&'static str>) -> (r: Option<String>)
    requires
        i < doc@.len(),
    ensures
        text_view(r) == text_under(doc@, i as int, tags@),
{
    assert(tags@.subrange(0, tags@.len() as int) =~= tags@);
    for k in 0..tags.len()
        invariant
            i < doc@.len(),
            text_under(doc@, i as int, tags@) == text_under(
                doc@,
                i as int,
                tags@.subrange(k as int, tags@.len() as int),
            ),
    {
        let ghost rest = tags@.subrange(k as int, tags@.len() as int);
        assert(rest.drop_first() =~= tags@.subrange(k + 1, tags@.len() as int));
        let found: Option<String> = find_text(doc, &collect(doc, i, tags[k]));
        if found.is_some() {
            return found;
        }
    }
    None
}

/// One tag.
pub fn tags1(a: &'static str) -> (r: Vec<&'static str>)
    ensures
        r@ == seq![a],
{
    let mut r: Vec<&'static str> = Vec::new();
    r.push(a);
    assert(r@ =~= seq![a]);
    r
}

/// Two tags, the first one preferred.
pub fn tags2(a: &'static str, b: &'static str) -> (r: Vec<&'static str>)
    ensures
        r@ == seq![a, b],
{
    let mut r: Vec<&'static str> = tags1(a);
    r.push(b);
    assert(r@ =~= seq![a, b]);
    r
}

/// Three tags, in order of preference.
pub fn tags3(a: &'static str, b: &'static str, c: &'static str) -> (r: Vec<&'static str>)
    ensures
        r@ == seq![a, b, c],
{
    let mut r: Vec<&'static str> = tags2(a, b);
    r.push(c);
    assert(r@ =~= seq![a, b, c]);
    r
}

/// Four tags, in order of preference.
pub fn tags4(a: &'static str, b: &'static str, c: &'static str, d: &'static str) -> (r: Vec<
    &'static str,
>)
    ensures
        r@ == seq![a, b, c, d],
{
    let mut r: Vec<&'static str> = tags3(a, b, c);
    r.push(d);
    assert(r@ =~= seq![a, b, c, d]);
    r
}

/// A child element's reference: the ID-REF attribute first, the element's text
/// as the fallback.
pub open spec fn reference_of(doc: Seq<XmlNode>, i: int, tag: Seq<char>) -> Option<Seq<char>> {
    match child_of(doc, i, tag) {
        Some(c) => match attribute_of(doc, c as int, "ID-REF"@) {
            Some(v) => Some(v@),
            None => match doc[c as int].text {
                Some(t) => if text::trimmed(t@).len() > 0 {
                    Some(text::trimmed(t@))
                } else {
                    None
                },
                None => None,
            },
        },
        None => None,
    }
}

/// A child element's reference: the ID-REF attribute first, the element's text
/// as the fallback.
pub fn ref_of(doc: &Vec<XmlNode>, i: usize, tag: &str) -> (r: Option<String>)
    requires
        i < doc@.len(),
    ensures
        text_view(r) == reference_of(doc@, i as int, tag@),
{
    match find_child(doc, i, tag) {
        Some(c) => match attribute(doc, c, "ID-REF") {
            Some(v) => Some(v),
            None => match &doc[c].text {
                Some(t) => {
                    let chars: Vec<char> = text::trim_chars(t.as_str());
                    if chars.len() > 0 {
                        Some(text::string_of(&chars))
                    } else {
                        None
                    }
                },
                None => None,
            },
        },
        None => None,
    }
}

/// The number that a text stands for: decimal, or hexadecimal behind `0x`.
pub open spec fn number_in(s: Seq<char>) -> Option<nat> {
    let t = text::trimmed(s);
    if text::stands_at(t, seq!['0', 'x'], 0) || text::stands_at(t, seq!['0', 'X'], 0) {
        text::unsigned_value(t.subrange(2, t.len() as int), 16, u32::MAX as nat)
    } else {
        text::unsigned_value(t, 10, u32::MAX as nat)
    }
}

/// `r` is the number `n`, where there is one.
pub open spec fn is_number(r: Option<u32>, n: Option<nat>) -> bool {
    r is Some == n is Some && (r is Some ==> r->0 == n->0)
}

/// Reads a number: decimal, or hexadecimal behind `0x`.
pub fn parse_u32(s: &str) -> (r: Option<u32>)
    ensures
        is_number(r, number_in(s@)),
{
    let chars: Vec<char> = text::trim_chars(s);
    let hex: bool = chars.len() >= 2 && chars[0] == '0' && (chars[1] == 'x' || chars[1] == 'X');
    proof {
        let t = chars@;
        assert(text::stands_at(t, seq!['0', 'x'], 0) == (t.len() >= 2 && t[0] == '0' && t[1]
            == 'x')) by {
            if t.len() >= 2 && t[0] == '0' && t[1] == 'x' {
                assert(t.subrange(0, 2) =~= seq!['0', 'x']);
            } else if text::stands_at(t, seq!['0', 'x'], 0) {
                assert(t.subrange(0, 2)[0] == '0' && t.subrange(0, 2)[1] == 'x');
            }
        }
        assert(text::stands_at(t, seq!['0', 'X'], 0) == (t.len() >= 2 && t[0] == '0' && t[1]
            == 'X')) by {
            if t.len() >= 2 && t[0] == '0' && t[1] == 'X' {
                assert(t.subrange(0, 2) =~= seq!['0', 'X']);
            } else if text::stands_at(t, seq!['0', 'X'], 0) {
                assert(t.subrange(0, 2)[0] == '0' && t.subrange(0, 2)[1] == 'X');
            }
        }
    }
    let found: Option<u64> = if hex {
        let digits: &[char] = vstd::slice::slice_subrange(chars.as_slice(), 2, chars.len());
        text::parse_unsigned(digits, 16, 0xffff_ffff)
    } else {
        text::parse_unsigned(chars.as_slice(), 10, 0xffff_ffff)
    };
    match found {
        Some(v) => Some(v as u32),
        None => None,
    }
}

/// The number under any of the candidate tags.
pub open spec fn number_under(doc: Seq<XmlNode>, i: int, tags: Seq<&'static str>) -> Option<nat> {
    match text_under(doc, i, tags) {
        Some(t) => number_in(t),
        None => None,
    }
}

/// The number under any of the candidate tags, or `default`.
pub open spec fn number_or(
    doc: Seq<XmlNode>,
    i: int,
    tags: Seq<&'static str>,
    default: u32,
) -> int {
    match number_under(doc, i, tags) {
        Some(v) => v as int,
        None => default as int,
    }
}

/// The number under any of the candidate tags.
pub fn u32_of(doc: &Vec<XmlNode>, i: usize, tags: &Vec<&'static str>) -> (r: Option<u32>)
    requires
        i < doc@.len(),
    ensures
        is_number(r, number_under(doc@, i as int, tags@)),
{
    match text_of(doc, i, tags) {
        Some(t) => parse_u32(t.as_str()),
        None => None,
    }
}

/// The number under any of the candidate tags, or `default`.
pub fn u32_or(doc: &Vec<XmlNode>, i: usize, tags: &Vec<&'static str>, default: u32) -> (r: u32)
    requires
        i < doc@.len(),
    ensures
        r == number_or(doc@, i as int, tags@, default),
{
    match u32_of(doc, i, tags) {
        Some(v) => v,
        None => default,
    }
}

/// The text under the tags says "true", in any case.
pub open spec fn says_true(doc: Seq<XmlNode>, i: int, tags: Seq<&'static str>) -> bool {
    match text_under(doc, i, tags) {
        Some(t) => text::same_but_case(t, "true"@),
        None => false,
    }
}

/// "true" under any of the candidate tags; absent means false.
pub fn truthy(doc: &Vec<XmlNode>, i: usize, tags: &Vec<&'static str>) -> (r: bool)
    requires
        i < doc@.len(),
    ensures
        r == says_true(doc@, i as int, tags@),
{
    match text_of(doc, i, tags) {
        Some(t) => text::equals_ignoring_case(t.as_str(), "true"),
        None => false,
    }
}

} // verus!
