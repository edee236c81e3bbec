//! How a document's tree is read: subtrees, children, ancestors, attributes and texts.

use vstd::prelude::*;
use crate::text;
use crate::xml;
use crate::xml::{XmlAttribute, XmlNode};

verus! {

proof fn lemma_end(doc: Seq<XmlNode>, depth: usize, from: int)
    requires
        0 <= from <= doc.len(),
    ensures
        from <= xml::end_from(doc, depth, from) <= doc.len(),
        forall|k: int|
            from <= k < xml::end_from(doc, depth, from) ==> (#[trigger] doc[k]).depth > depth,
        xml::end_from(doc, depth, from) < doc.len() ==> doc[xml::end_from(doc, depth, from)].depth
            <= depth,
    decreases doc.len() - from,
{
    if from < doc.len() && doc[from].depth > depth {
        lemma_end(doc, depth, from + 1);
    }
}

/// The subtree of a node is the node and all that stands deeper right behind it, up to the
/// next node that does not.
pub proof fn law_a_subtree_is_what_stands_deeper(doc: Seq<XmlNode>, i: int)
    requires
        0 <= i < doc.len(),
    ensures
        i < xml::subtree_end(doc, i) <= doc.len(),
        forall|k: int|
            i < k < xml::subtree_end(doc, i) ==> (#[trigger] doc[k]).depth > doc[i].depth,
        xml::subtree_end(doc, i) < doc.len() ==> doc[xml::subtree_end(doc, i)].depth
            <= doc[i].depth,
{
    lemma_end(doc, doc[i].depth, i + 1);
}

proof fn lemma_tagged_all(doc: Seq<XmlNode>, lo: int, hi: int, tag: Seq<char>)
    requires
        0 <= lo,
        hi <= doc.len() <= usize::MAX,
    ensures
        forall|k: int|
            lo <= k < hi && (#[trigger] doc[k]).element && doc[k].tag@ == tag ==> xml::tagged(
                doc,
                lo,
                hi,
                tag,
            ).contains(k as usize),
        forall|a: int|
            0 <= a < xml::tagged(doc, lo, hi, tag).len() ==> {
                let k = #[trigger] xml::tagged(doc, lo, hi, tag)[a] as int;
                lo <= k < hi && doc[k].element && doc[k].tag@ == tag
            },
        forall|a: int, b: int|
            0 <= a < b < xml::tagged(doc, lo, hi, tag).len() ==> (#[trigger] xml::tagged(
                doc,
                lo,
                hi,
                tag,
            )[a]) < (#[trigger] xml::tagged(doc, lo, hi, tag)[b]),
    decreases hi - lo,
{
    if lo < hi {
        lemma_tagged_all(doc, lo, hi - 1, tag);
        let now = xml::tagged(doc, lo, hi, tag);
        let before = xml::tagged(doc, lo, hi - 1, tag);
        assert forall|k: int|
            lo <= k < hi && (#[trigger] doc[k]).element && doc[k].tag@ == tag implies now.contains(
            k as usize,
        ) by {
            if k < hi - 1 {
                assert(before.contains(k as usize));
                let a = choose|a: int| 0 <= a < before.len() && before[a] == k as usize;
                assert(now[a] == k as usize);
            } else {
                assert(now[now.len() - 1] == k as usize);
            }
        }
    }
}

/// The elements of a tag below a node are all of its subtree that bear the tag, the node
/// itself among them, in the order of the document, and no others.
pub proof fn law_elements_are_collected_by_tag(doc: Seq<XmlNode>, i: int, tag: Seq<char>, k: int)
    requires
        0 <= i < doc.len(),
        doc.len() <= usize::MAX,
    ensures
        i <= k < xml::subtree_end(doc, i) && doc[k].element && doc[k].tag@ == tag
            ==> xml::collected(doc, i, tag).contains(k as usize),
        forall|a: int|
            0 <= a < xml::collected(doc, i, tag).len() ==> {
                let n = #[trigger] xml::collected(doc, i, tag)[a] as int;
                i <= n < xml::subtree_end(doc, i) && doc[n].element && doc[n].tag@ == tag
            },
        forall|a: int, b: int|
            0 <= a < b < xml::collected(doc, i, tag).len() ==> (#[trigger] xml::collected(
                doc,
                i,
                tag,
            )[a]) < (#[trigger] xml::collected(doc, i, tag)[b]),
{
    law_a_subtree_is_what_stands_deeper(doc, i);
    lemma_tagged_all(doc, i, xml::subtree_end(doc, i), tag);
}

proof fn lemma_child(doc: Seq<XmlNode>, i: int, j: int, end: int, tag: Seq<char>)
    requires
        0 <= i < j <= end <= doc.len(),
        doc.len() <= usize::MAX,
    ensures
        match xml::child_from(doc, i, j, end, tag) {
            Some(c) => j <= c < end && doc[c as int].depth == doc[i].depth + 1
                && doc[c as int].element && doc[c as int].tag@ == tag && forall|k: int|
                j <= k < c ==> (#[trigger] doc[k]).depth != doc[i].depth + 1 || !doc[k].element
                    || doc[k].tag@ != tag,
            None => forall|k: int|
                j <= k < end ==> (#[trigger] doc[k]).depth != doc[i].depth + 1 || !doc[k].element
                    || doc[k].tag@ != tag,
        },
    decreases end - j,
{
    if j < end && !(doc[j].depth == doc[i].depth + 1 && doc[j].element && doc[j].tag@ == tag) {
        lemma_child(doc, i, j + 1, end, tag);
    }
}

/// A child is the first element of the tag one level down, and none is made up.
pub proof fn law_a_child_is_one_level_down(doc: Seq<XmlNode>, i: int, tag: Seq<char>)
    requires
        0 <= i < doc.len(),
        doc.len() <= usize::MAX,
    ensures
        match xml::child_of(doc, i, tag) {
            Some(c) => i < c < xml::subtree_end(doc, i) && doc[c as int].depth == doc[i].depth + 1
                && doc[c as int].element && doc[c as int].tag@ == tag && forall|k: int|
                i < k < c ==> (#[trigger] doc[k]).depth != doc[i].depth + 1 || !doc[k].element
                    || doc[k].tag@ != tag,
            None => forall|k: int|
                i < k < xml::subtree_end(doc, i) ==> (#[trigger] doc[k]).depth != doc[i].depth + 1
                    || !doc[k].element || doc[k].tag@ != tag,
        },
{
    law_a_subtree_is_what_stands_deeper(doc, i);
    lemma_child(doc, i, i + 1, xml::subtree_end(doc, i), tag);
}

proof fn lemma_ancestor(doc: Seq<XmlNode>, j: int, depth: int, tag: Seq<char>)
    requires
        j < doc.len(),
        doc.len() <= usize::MAX,
    ensures
        xml::ancestor_from(doc, j, depth, tag) matches Some(a) ==> 0 <= a <= j
            && doc[a as int].depth < depth && doc[a as int].element && doc[a as int].tag@ == tag
            && forall|k: int| a < k <= j ==> (#[trigger] doc[k]).depth > doc[a as int].depth
            || !(doc[k].element && doc[k].tag@ == tag && doc[k].depth < depth),
    decreases j + 1,
{
    if j >= 0 {
        if doc[j].depth < depth {
            lemma_ancestor(doc, j - 1, doc[j].depth as int, tag);
        } else {
            lemma_ancestor(doc, j - 1, depth, tag);
        }
    }
}

/// An element with the tag is its own nearest one; any other found stands before the node
/// and at a lower depth, and bears the tag.
pub proof fn law_an_ancestor_stands_above(doc: Seq<XmlNode>, i: int, tag: Seq<char>)
    requires
        0 <= i < doc.len(),
        doc.len() <= usize::MAX,
    ensures
        doc[i].element && doc[i].tag@ == tag ==> xml::ancestor_of(doc, i, tag) == Some(i as usize),
        xml::ancestor_of(doc, i, tag) matches Some(a) ==> a <= i && doc[a as int].element
            && doc[a as int].tag@ == tag && (a == i || doc[a as int].depth < doc[i].depth),
{
    if !(doc[i].element && doc[i].tag@ == tag) {
        lemma_ancestor(doc, i - 1, doc[i].depth as int, tag);
    }
}

/// An attribute is the first of its name without a namespace.
pub proof fn law_attributes_go_by_their_plain_name(
    list: Seq<XmlAttribute>,
    name: Seq<char>,
    k: int,
)
    ensures
        0 <= k < list.len() && list[k].namespace is None && list[k].name@ == name && (forall|i: int|
            0 <= i < k ==> (#[trigger] list[i]).namespace is Some || list[i].name@ != name)
            ==> xml::attribute_in(list, name) == Some(list[k].value),
        (forall|i: int|
            0 <= i < list.len() ==> (#[trigger] list[i]).namespace is Some || list[i].name@ != name)
            ==> xml::attribute_in(list, name) is None,
    decreases list.len(),
{
    if list.len() > 0 {
        let rest = list.drop_first();
        law_attributes_go_by_their_plain_name(rest, name, k - 1);
        if 0 < k < list.len() && (forall|i: int|
            0 <= i < k ==> (#[trigger] list[i]).namespace is Some || list[i].name@ != name) {
            assert(list[0].namespace is Some || list[0].name@ != name);
            assert(rest[k - 1] == list[k]);
            assert forall|i: int| 0 <= i < k - 1 implies (#[trigger] rest[i]).namespace is Some
                || rest[i].name@ != name by {
                assert(rest[i] == list[i + 1]);
            }
        }
        if forall|i: int|
            0 <= i < list.len() ==> (#[trigger] list[i]).namespace is Some || list[i].name@
                != name {
            assert(list[0].namespace is Some || list[0].name@ != name);
            assert forall|i: int| 0 <= i < rest.len() implies (#[trigger] rest[i]).namespace is Some
                || rest[i].name@ != name by {
                assert(rest[i] == list[i + 1]);
            }
        }
    }
}

/// The text of a list of elements is the first that is not blank, trimmed.
pub proof fn law_the_first_text_counts(doc: Seq<XmlNode>, nodes: Seq<usize>, k: int)
    requires
        0 <= k < nodes.len(),
        doc[nodes[k] as int].text is Some,
        text::trimmed(doc[nodes[k] as int].text->0@).len() > 0,
        forall|i: int|
            0 <= i < k ==> doc[(#[trigger] nodes[i]) as int].text is None || text::trimmed(
                doc[nodes[i] as int].text->0@,
            ).len() == 0,
    ensures
        xml::first_text(doc, nodes) == Some(text::trimmed(doc[nodes[k] as int].text->0@)),
    decreases nodes.len(),
{
    if k > 0 {
        let rest = nodes.drop_first();
        assert(doc[nodes[0] as int].text is None || text::trimmed(
            doc[nodes[0] as int].text->0@,
        ).len() == 0);
        assert(rest[k - 1] == nodes[k]);
        assert forall|i: int| 0 <= i < k - 1 implies doc[(#[trigger] rest[i]) as int].text is None
            || text::trimmed(doc[rest[i] as int].text->0@).len() == 0 by {
            assert(rest[i] == nodes[i + 1]);
        }
        law_the_first_text_counts(doc, rest, k - 1);
    }
}

/// Of several candidate tags the first that has a text gives it.
pub proof fn law_earlier_tags_go_first(doc: Seq<XmlNode>, i: int, tags: Seq<&'static str>)
    requires
        tags.len() > 0,
    ensures
        ({
            let first = xml::first_text(doc, xml::collected(doc, i, tags[0]@));
            &&& first is Some ==> xml::text_under(doc, i, tags) == first
            &&& first is None ==> xml::text_under(doc, i, tags) == xml::text_under(
                doc,
                i,
                tags.drop_first(),
            )
        }),
        xml::text_under(doc, i, Seq::empty()) is None,
{
}

} // verus!
