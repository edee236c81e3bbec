//! FIBEX 2.x/3.x: codings, signals, PDUs, frames and triggerings, and how they
//! are put together.

use vstd::prelude::*;
use vstd::string::*;
use crate::fr_db;
use crate::fr_db::{FrChannel, FrDb, FrFrameDb, FrPdu, FrSignal, FrTriggering};
use crate::fr_params;
use crate::fr_params::FrClusterParams;
use crate::fr_text;
use crate::text;
use crate::xml;
use crate::xml::XmlNode;

verus! {

/// A CODING: the physical encoding of the signals that refer to it.
pub struct FibexCoding {
    pub id: String,
    pub bit_length: u32,
    pub signed: bool,
    pub factor: String,
    pub offset: String,
    pub min: String,
    pub max: String,
    pub unit: String,
    pub labels: Vec<(i64, String)>,
}

/// Some attribute of the element marks a signed base type.
pub open spec fn signed_type(attributes: Seq<xml::XmlAttribute>) -> bool {
    exists|a: int|
        0 <= a < attributes.len() && text::holds_text(
            (#[trigger] attributes[a]).name@,
            "BASE-DATA-TYPE"@,
        ) && text::holds_text(attributes[a].value@, "A_INT"@)
}

/// The coding is signed: by its convention, or by the base type of a coded type.
pub open spec fn coding_signed(doc: Seq<XmlNode>, i: int) -> bool {
    let types = xml::collected(doc, i, "CODED-TYPE"@);
    ||| fr_text::names_signed(xml::text_under(doc, i, seq!["SIGN-CONVENTION"]))
    ||| exists|k: int|
        0 <= k < types.len() && signed_type(doc[#[trigger] types[k] as int].attributes@)
}

/// The real numbers among the texts of the first `n` elements.
pub open spec fn reals(doc: Seq<XmlNode>, nodes: Seq<usize>, n: int) -> Seq<Seq<char>>
    decreases n,
{
    if n <= 0 {
        Seq::<Seq<char>>::empty()
    } else {
        let rest = reals(doc, nodes, n - 1);
        match doc[nodes[n - 1] as int].text {
            Some(t) => match fr_text::real_in(t@) {
                Some(v) => rest.push(v),
                None => rest,
            },
            None => rest,
        }
    }
}

/// The coefficients of the first COMPU-RATIONAL-COEFFS: offset and factor, or the
/// factor alone.
pub open spec fn coefficients(doc: Seq<XmlNode>, i: int) -> Seq<Seq<char>> {
    let blocks = xml::collected(doc, i, "COMPU-RATIONAL-COEFFS"@);
    if blocks.len() == 0 {
        Seq::<Seq<char>>::empty()
    } else {
        let values = xml::collected(doc, blocks[0] as int, "V"@);
        reals(doc, values, values.len() as int)
    }
}

/// The factor among the coefficients.
pub open spec fn factor_in(values: Seq<Seq<char>>) -> Seq<char> {
    if values.len() >= 2 {
        values[1]
    } else if values.len() == 1 {
        values[0]
    } else {
        "1"@
    }
}

/// The offset among the coefficients.
pub open spec fn offset_in(values: Seq<Seq<char>>) -> Seq<char> {
    if values.len() >= 2 {
        values[0]
    } else {
        "0"@
    }
}

/// The limits of the first scale without a label that states one.
pub open spec fn limits_from(doc: Seq<XmlNode>, scales: Seq<usize>, k: int) -> Option<
    (Option<Seq<char>>, Option<Seq<char>>),
>
    decreases scales.len() - k,
{
    if k < 0 || k >= scales.len() {
        None
    } else {
        let s = scales[k] as int;
        let lo = fr_text::real_under(doc, s, seq!["LOWER-LIMIT"]);
        let hi = fr_text::real_under(doc, s, seq!["UPPER-LIMIT"]);
        if xml::text_under(doc, s, seq!["VT"]) is None && (lo is Some || hi is Some) {
            Some((lo, hi))
        } else {
            limits_from(doc, scales, k + 1)
        }
    }
}

/// The range of the coding: SCALE-CONSTR first, plain SCALE as the fallback.
pub open spec fn limits_of(doc: Seq<XmlNode>, i: int) -> Option<
    (Option<Seq<char>>, Option<Seq<char>>),
> {
    let first = limits_from(doc, xml::collected(doc, i, "SCALE-CONSTR"@), 0);
    if first is Some {
        first
    } else {
        limits_from(doc, xml::collected(doc, i, "SCALE"@), 0)
    }
}

/// A limit, or zero.
pub open spec fn limit_text(limit: Option<Seq<char>>) -> Seq<char> {
    match limit {
        Some(t) => t,
        None => "0"@,
    }
}

/// The first of the elements whose ID is `id`.
pub open spec fn with_id_from(doc: Seq<XmlNode>, nodes: Seq<usize>, id: Seq<char>, k: int) -> Option<
    usize,
>
    decreases nodes.len() - k,
{
    if k < 0 || k >= nodes.len() {
        None
    } else if xml::text_view(xml::attribute_of(doc, nodes[k] as int, "ID"@)) == Some(id) {
        Some(nodes[k])
    } else {
        with_id_from(doc, nodes, id, k + 1)
    }
}

/// The unit of the coding: that of the UNIT element it refers to, or an inline
/// display name.
pub open spec fn unit_of(doc: Seq<XmlNode>, root: int, i: int) -> Seq<char> {
    let refs = xml::collected(doc, i, "UNIT-REF"@);
    if refs.len() > 0 {
        let id = xml::or_empty(
            xml::text_view(xml::attribute_of(doc, refs[0] as int, "ID-REF"@)),
        );
        if id.len() == 0 {
            Seq::<char>::empty()
        } else {
            match with_id_from(doc, xml::collected(doc, root, "UNIT"@), id, 0) {
                Some(u) => xml::or_empty(xml::text_under(doc, u as int, seq!["DISPLAY-NAME"])),
                None => Seq::<char>::empty(),
            }
        }
    } else {
        xml::or_empty(xml::text_under(doc, i, seq!["DISPLAY-NAME"]))
    }
}

/// `seen` followed by the labels of the first `n` scales that are not yet there.
pub open spec fn labels_after(
    doc: Seq<XmlNode>,
    scales: Seq<usize>,
    n: int,
    seen: Seq<(i64, Seq<char>)>,
) -> Seq<(i64, Seq<char>)>
    decreases n,
{
    if n <= 0 {
        seen
    } else {
        let rest = labels_after(doc, scales, n - 1, seen);
        let s = scales[n - 1] as int;
        match (
            xml::text_under(doc, s, seq!["VT"]),
            xml::number_under(doc, s, seq!["LOWER-LIMIT"]),
        ) {
            (Some(vt), Some(lo)) => if rest.contains((lo as i64, vt)) {
                rest
            } else {
                rest.push((lo as i64, vt))
            },
            _ => rest,
        }
    }
}

/// The enumeration labels of the coding: the scales that carry a VT.
pub open spec fn coding_labels(doc: Seq<XmlNode>, i: int) -> Seq<(i64, Seq<char>)> {
    let a = xml::collected(doc, i, "COMPU-SCALE"@);
    let b = xml::collected(doc, i, "SCALE-CONSTR"@);
    let c = xml::collected(doc, i, "SCALE"@);
    let first = labels_after(doc, a, a.len() as int, Seq::<(i64, Seq<char>)>::empty());
    let second = labels_after(doc, b, b.len() as int, first);
    labels_after(doc, c, c.len() as int, second)
}

/// `c` is what the CODING element `i` states.
pub open spec fn is_coding(c: FibexCoding, doc: Seq<XmlNode>, root: int, i: int) -> bool {
    let limits = limits_of(doc, i);
    &&& c.id@ == xml::or_empty(xml::text_view(xml::attribute_of(doc, i, "ID"@)))
    &&& c.bit_length == xml::number_or(doc, i, seq!["BIT-LENGTH"], 1)
    &&& c.signed == coding_signed(doc, i)
    &&& c.factor@ == factor_in(coefficients(doc, i))
    &&& c.offset@ == offset_in(coefficients(doc, i))
    &&& c.min@ == limit_text(
        match limits {
            Some(l) => l.0,
            None => None,
        },
    )
    &&& c.max@ == limit_text(
        match limits {
            Some(l) => l.1,
            None => None,
        },
    )
    &&& c.unit@ == unit_of(doc, root, i)
    &&& fr_db::label_views(c.labels@) == coding_labels(doc, i)
}

fn has_signed_type(doc: &Vec<XmlNode>, nodes: &Vec<usize>) -> (r: bool)
    requires
        xml::in_doc(doc@, nodes@),
    ensures
        r == exists|k: int|
            0 <= k < nodes@.len() && signed_type(doc@[#[trigger] nodes@[k] as int].attributes@),
{
    for k in 0..nodes.len()
        invariant
            xml::in_doc(doc@, nodes@),
            forall|j: int|
                0 <= j < k ==> !signed_type(doc@[#[trigger] nodes@[j] as int].attributes@),
    {
        assert(nodes@[k as int] < doc@.len());
        let attributes: &Vec<xml::XmlAttribute> = &doc[nodes[k]].attributes;
        for a in 0..attributes.len()
            invariant
                forall|b: int|
                    0 <= b < a ==> !(text::holds_text(
                        (#[trigger] attributes@[b]).name@,
                        "BASE-DATA-TYPE"@,
                    ) && text::holds_text(attributes@[b].value@, "A_INT"@)),
                xml::in_doc(doc@, nodes@),
                k < nodes@.len(),
                attributes@ == doc@[nodes@[k as int] as int].attributes@,
        {
            if text::contains_text(attributes[a].name.as_str(), "BASE-DATA-TYPE")
                && text::contains_text(attributes[a].value.as_str(), "A_INT") {
                assert(signed_type(doc@[nodes@[k as int] as int].attributes@));
                return true;
            }
        }
    }
    false
}

fn real_texts(doc: &Vec<XmlNode>, nodes: &Vec<usize>) -> (r: Vec<String>)
    requires
        xml::in_doc(doc@, nodes@),
    ensures
        fr_db::name_views(r@) == reals(doc@, nodes@, nodes@.len() as int),
{
    let mut r: Vec<String> = Vec::new();
    assert(fr_db::name_views(r@) =~= Seq::<Seq<char>>::empty());
    for k in 0..nodes.len()
        invariant
            xml::in_doc(doc@, nodes@),
            fr_db::name_views(r@) == reals(doc@, nodes@, k as int),
    {
        assert(nodes@[k as int] < doc@.len());
        if let Some(t) = &doc[nodes[k]].text {
            if let Some(v) = fr_text::parse_real(t.as_str()) {
                let ghost before = r@;
                r.push(v);
                assert(fr_db::name_views(r@) =~= fr_db::name_views(before).push(v@));
            }
        }
    }
    r
}

fn coefficient_texts(doc: &Vec<XmlNode>, i: usize) -> (r: Vec<String>)
    requires
        i < doc@.len(),
    ensures
        fr_db::name_views(r@) == coefficients(doc@, i as int),
{
    let blocks: Vec<usize> = xml::collect(doc, i, "COMPU-RATIONAL-COEFFS");
    if blocks.len() == 0 {
        let none: Vec<String> = Vec::new();
        assert(fr_db::name_views(none@) =~= Seq::<Seq<char>>::empty());
        return none;
    }
    assert(blocks@[0] < doc@.len());
    let values: Vec<usize> = xml::collect(doc, blocks[0], "V");
    real_texts(doc, &values)
}

/// Two optional texts as their characters.
spec fn pair_view(p: Option<(Option<String>, Option<String>)>) -> Option<
    (Option<Seq<char>>, Option<Seq<char>>),
> {
    match p {
        Some(l) => Some((xml::text_view(l.0), xml::text_view(l.1))),
        None => None,
    }
}

fn find_limits(doc: &Vec<XmlNode>, scales: &Vec<usize>) -> (r: Option<
    (Option<String>, Option<String>),
>)
    requires
        xml::in_doc(doc@, scales@),
    ensures
        pair_view(r) == limits_from(doc@, scales@, 0),
{
    for k in 0..scales.len()
        invariant
            xml::in_doc(doc@, scales@),
            limits_from(doc@, scales@, 0) == limits_from(doc@, scales@, k as int),
    {
        assert(scales@[k as int] < doc@.len());
        let s: usize = scales[k];
        if xml::text_of(doc, s, &xml::tags1("VT")).is_none() {
            let lo: Option<String> = fr_text::real_of(doc, s, &xml::tags1("LOWER-LIMIT"));
            let hi: Option<String> = fr_text::real_of(doc, s, &xml::tags1("UPPER-LIMIT"));
            if lo.is_some() || hi.is_some() {
                return Some((lo, hi));
            }
        }
    }
    None
}

fn find_with_id(doc: &Vec<XmlNode>, nodes: &Vec<usize>, id: &String) -> (r: Option<usize>)
    requires
        xml::in_doc(doc@, nodes@),
    ensures
        r == with_id_from(doc@, nodes@, id@, 0),
        r matches Some(k) ==> k < doc@.len(),
{
    for k in 0..nodes.len()
        invariant
            xml::in_doc(doc@, nodes@),
            with_id_from(doc@, nodes@, id@, 0) == with_id_from(doc@, nodes@, id@, k as int),
    {
        assert(nodes@[k as int] < doc@.len());
        if let Some(v) = xml::attribute(doc, nodes[k], "ID") {
            if v == *id {
                return Some(nodes[k]);
            }
        }
    }
    None
}

/// The text, or the empty one.
pub(crate) fn or_default(t: Option<String>) -> (r: String)
    ensures
        r@ == xml::or_empty(xml::text_view(t)),
{
    match t {
        Some(s) => s,
        None => String::new(),
    }
}

fn find_unit(doc: &Vec<XmlNode>, root: usize, i: usize) -> (r: String)
    requires
        i < doc@.len(),
        root < doc@.len(),
    ensures
        r@ == unit_of(doc@, root as int, i as int),
{
    let refs: Vec<usize> = xml::collect(doc, i, "UNIT-REF");
    if refs.len() > 0 {
        assert(refs@[0] < doc@.len());
        let id: String = or_default(xml::attribute(doc, refs[0], "ID-REF"));
        if id.as_str().is_empty() {
            return String::new();
        }
        let units: Vec<usize> = xml::collect(doc, root, "UNIT");
        match find_with_id(doc, &units, &id) {
            Some(u) => or_default(xml::text_of(doc, u, &xml::tags1("DISPLAY-NAME"))),
            None => String::new(),
        }
    } else {
        or_default(xml::text_of(doc, i, &xml::tags1("DISPLAY-NAME")))
    }
}

fn has_label(labels: &Vec<(i64, String)>, value: i64, label: &String) -> (r: bool)
    ensures
        r == fr_db::label_views(labels@).contains((value, label@)),
{
    let ghost views = fr_db::label_views(labels@);
    for k in 0..labels.len()
        invariant
            views == fr_db::label_views(labels@),
            forall|j: int| 0 <= j < k ==> views[j] != (value, label@),
    {
        assert(views[k as int] == (labels@[k as int].0, labels@[k as int].1@));
        if labels[k].0 == value && labels[k].1 == *label {
            assert(views[k as int] == (value, label@));
            return true;
        }
    }
    false
}

fn add_labels(doc: &Vec<XmlNode>, scales: &Vec<usize>, labels: &mut Vec<(i64, String)>)
    requires
        xml::in_doc(doc@, scales@),
    ensures
        fr_db::label_views(final(labels)@) == labels_after(
            doc@,
            scales@,
            scales@.len() as int,
            fr_db::label_views(old(labels)@),
        ),
{
    for k in 0..scales.len()
        invariant
            xml::in_doc(doc@, scales@),
            fr_db::label_views(labels@) == labels_after(
                doc@,
                scales@,
                k as int,
                fr_db::label_views(old(labels)@),
            ),
    {
        assert(scales@[k as int] < doc@.len());
        let s: usize = scales[k];
        if let Some(vt) = xml::text_of(doc, s, &xml::tags1("VT")) {
            if let Some(lo) = xml::u32_of(doc, s, &xml::tags1("LOWER-LIMIT")) {
                if !has_label(labels, lo as i64, &vt) {
                    let ghost before = labels@;
                    labels.push((lo as i64, vt));
                    assert(fr_db::label_views(labels@) =~= fr_db::label_views(before).push(
                        (lo as i64, vt@),
                    ));
                }
            }
        }
    }
}

fn read_coding(doc: &Vec<XmlNode>, root: usize, i: usize) -> (c: FibexCoding)
    requires
        i < doc@.len(),
        root < doc@.len(),
    ensures
        is_coding(c, doc@, root as int, i as int),
{
    let mut signed: bool = fr_text::is_signed_text(
        &xml::text_of(doc, i, &xml::tags1("SIGN-CONVENTION")),
    );
    if !signed {
        // Vector dialects carry no SIGN-CONVENTION; CODED-TYPE's
        // BASE-DATA-TYPE=A_INT* marks signed instead.
        signed = has_signed_type(doc, &xml::collect(doc, i, "CODED-TYPE"));
    }
    let values: Vec<String> = coefficient_texts(doc, i);
    let ghost views = fr_db::name_views(values@);
    assert(forall|k: int| 0 <= k < values@.len() ==> views[k] == (#[trigger] values@[k])@);
    let factor: String = if values.len() >= 2 {
        values[1].clone()
    } else if values.len() == 1 {
        values[0].clone()
    } else {
        "1".to_owned()
    };
    let offset: String = if values.len() >= 2 { values[0].clone() } else { "0".to_owned() };
    let constrained: Option<(Option<String>, Option<String>)> = find_limits(
        doc,
        &xml::collect(doc, i, "SCALE-CONSTR"),
    );
    let limits: Option<(Option<String>, Option<String>)> = if constrained.is_some() {
        constrained
    } else {
        find_limits(doc, &xml::collect(doc, i, "SCALE"))
    };
    let (lo, hi): (Option<String>, Option<String>) = match limits {
        Some(l) => l,
        None => (None, None),
    };
    let mut labels: Vec<(i64, String)> = Vec::new();
    assert(fr_db::label_views(labels@) =~= Seq::<(i64, Seq<char>)>::empty());
    add_labels(doc, &xml::collect(doc, i, "COMPU-SCALE"), &mut labels);
    add_labels(doc, &xml::collect(doc, i, "SCALE-CONSTR"), &mut labels);
    add_labels(doc, &xml::collect(doc, i, "SCALE"), &mut labels);
    FibexCoding {
        id: or_default(xml::attribute(doc, i, "ID")),
        bit_length: xml::u32_or(doc, i, &xml::tags1("BIT-LENGTH"), 1),
        signed,
        factor,
        offset,
        min: match lo {
            Some(t) => t,
            None => "0".to_owned(),
        },
        max: match hi {
            Some(t) => t,
            None => "0".to_owned(),
        },
        unit: find_unit(doc, root, i),
        labels,
    }
}

/// `codings` is what the CODING elements state, in document order.
pub open spec fn are_codings(codings: Seq<FibexCoding>, doc: Seq<XmlNode>, root: int) -> bool {
    let nodes = xml::collected(doc, root, "CODING"@);
    &&& codings.len() == nodes.len()
    &&& forall|k: int|
        0 <= k < codings.len() ==> is_coding(#[trigger] codings[k], doc, root, nodes[k] as int)
}

fn read_codings(doc: &Vec<XmlNode>, root: usize) -> (r: Vec<FibexCoding>)
    requires
        root < doc@.len(),
    ensures
        are_codings(r@, doc@, root as int),
{
    let nodes: Vec<usize> = xml::collect(doc, root, "CODING");
    let mut r: Vec<FibexCoding> = Vec::new();
    for k in 0..nodes.len()
        invariant
            root < doc@.len(),
            xml::in_doc(doc@, nodes@),
            r@.len() == k,
            forall|j: int|
                0 <= j < k ==> is_coding(
                    #[trigger] r@[j],
                    doc@,
                    root as int,
                    nodes@[j] as int,
                ),
    {
        assert(nodes@[k as int] < doc@.len());
        r.push(read_coding(doc, root, nodes[k]));
    }
    r
}

/// The elements among the first `n` that have an ID.
pub open spec fn identified(doc: Seq<XmlNode>, nodes: Seq<usize>, n: int) -> Seq<usize>
    decreases n,
{
    if n <= 0 {
        Seq::<usize>::empty()
    } else if xml::attribute_of(doc, nodes[n - 1] as int, "ID"@) is Some {
        identified(doc, nodes, n - 1).push(nodes[n - 1])
    } else {
        identified(doc, nodes, n - 1)
    }
}

/// The elements with that tag that have an ID, in document order.
pub open spec fn elements(doc: Seq<XmlNode>, root: int, tag: Seq<char>) -> Seq<usize> {
    let nodes = xml::collected(doc, root, tag);
    identified(doc, nodes, nodes.len() as int)
}

fn identified_elements(doc: &Vec<XmlNode>, root: usize, tag: &str) -> (r: Vec<usize>)
    requires
        root < doc@.len(),
    ensures
        r@ == elements(doc@, root as int, tag@),
        xml::in_doc(doc@, r@),
        forall|k: int|
            0 <= k < r@.len() ==> xml::attribute_of(doc@, #[trigger] r@[k] as int, "ID"@) is Some,
{
    let nodes: Vec<usize> = xml::collect(doc, root, tag);
    let mut r: Vec<usize> = Vec::new();
    for k in 0..nodes.len()
        invariant
            xml::in_doc(doc@, nodes@),
            xml::in_doc(doc@, r@),
            r@ == identified(doc@, nodes@, k as int),
            forall|j: int|
                0 <= j < r@.len() ==> xml::attribute_of(
                    doc@,
                    #[trigger] r@[j] as int,
                    "ID"@,
                ) is Some,
    {
        assert(nodes@[k as int] < doc@.len());
        if xml::attribute(doc, nodes[k], "ID").is_some() {
            r.push(nodes[k]);
        }
    }
    r
}

/// A SIGNAL: its name, the coding it refers to and its comment.
pub struct FibexSignal {
    pub id: String,
    pub name: String,
    pub coding: String,
    pub comment: String,
}

/// The ID of an element.
pub open spec fn id_of(doc: Seq<XmlNode>, i: int) -> Seq<char> {
    xml::or_empty(xml::text_view(xml::attribute_of(doc, i, "ID"@)))
}

/// `s` is what the SIGNAL element `i` states.
pub open spec fn is_signal(s: FibexSignal, doc: Seq<XmlNode>, i: int) -> bool {
    &&& s.id@ == id_of(doc, i)
    &&& s.name@ == xml::name_of(doc, i)
    &&& s.coding@ == xml::or_empty(xml::reference_of(doc, i, "CODING-REF"@))
    &&& s.comment@ == xml::or_empty(xml::text_under(doc, i, seq!["L-2", "DESC"]))
}

/// `signals` is what the SIGNAL elements with an ID state.
pub open spec fn are_signals(signals: Seq<FibexSignal>, doc: Seq<XmlNode>, root: int) -> bool {
    let nodes = elements(doc, root, "SIGNAL"@);
    &&& signals.len() == nodes.len()
    &&& forall|k: int|
        0 <= k < signals.len() ==> is_signal(#[trigger] signals[k], doc, nodes[k] as int)
}

fn read_signals(doc: &Vec<XmlNode>, root: usize) -> (r: Vec<FibexSignal>)
    requires
        root < doc@.len(),
    ensures
        are_signals(r@, doc@, root as int),
{
    let nodes: Vec<usize> = identified_elements(doc, root, "SIGNAL");
    let mut r: Vec<FibexSignal> = Vec::new();
    for k in 0..nodes.len()
        invariant
            xml::in_doc(doc@, nodes@),
            r@.len() == k,
            forall|j: int| 0 <= j < k ==> is_signal(#[trigger] r@[j], doc@, nodes@[j] as int),
    {
        assert(nodes@[k as int] < doc@.len());
        let i: usize = nodes[k];
        r.push(
            FibexSignal {
                id: or_default(xml::attribute(doc, i, "ID")),
                name: xml::short_name(doc, i),
                coding: or_default(xml::ref_of(doc, i, "CODING-REF")),
                comment: or_default(xml::text_of(doc, i, &xml::tags2("L-2", "DESC"))),
            },
        );
    }
    r
}

/// A SIGNAL-INSTANCE: the signal, its start bit and its byte order.
pub struct FibexInstance {
    pub signal: String,
    pub start_bit: u32,
    pub big_endian: bool,
}

/// The characters of each instance's reference.
pub open spec fn instance_views(list: Seq<FibexInstance>) -> Seq<(Seq<char>, u32, bool)> {
    list.map_values(|p: FibexInstance| (p.signal@, p.start_bit, p.big_endian))
}

/// The instances among the first `n` SIGNAL-INSTANCE elements that refer to a
/// signal. The standard tag is BIT-POSITION; the others are tool dialects. The
/// byte order is high-low unless the file says otherwise.
pub open spec fn instances(doc: Seq<XmlNode>, nodes: Seq<usize>, n: int) -> Seq<
    (Seq<char>, u32, bool),
>
    decreases n,
{
    if n <= 0 {
        Seq::<(Seq<char>, u32, bool)>::empty()
    } else {
        let rest = instances(doc, nodes, n - 1);
        let i = nodes[n - 1] as int;
        let signal = xml::or_empty(xml::reference_of(doc, i, "SIGNAL-REF"@));
        if signal.len() == 0 {
            rest
        } else {
            rest.push(
                (
                    signal,
                    xml::number_or(
                        doc,
                        i,
                        seq!["BIT-POSITION", "START-BIT-POSITION", "START-POSITION"],
                        0,
                    ) as u32,
                    match xml::text_under(doc, i, seq!["IS-HIGH-LOW-BYTE-ORDER"]) {
                        Some(t) => text::same_but_case(t, "true"@),
                        None => true,
                    },
                ),
            )
        }
    }
}

/// The instances under an element.
pub open spec fn instances_under(doc: Seq<XmlNode>, i: int) -> Seq<(Seq<char>, u32, bool)> {
    let nodes = xml::collected(doc, i, "SIGNAL-INSTANCE"@);
    instances(doc, nodes, nodes.len() as int)
}

/// SIGNAL-INSTANCE list under an element. Both the PDU-contained and the
/// signal-directly-on-frame dialects go through here.
fn parse_signal_instances(doc: &Vec<XmlNode>, i: usize) -> (r: Vec<FibexInstance>)
    requires
        i < doc@.len(),
    ensures
        instance_views(r@) == instances_under(doc@, i as int),
{
    let nodes: Vec<usize> = xml::collect(doc, i, "SIGNAL-INSTANCE");
    let mut r: Vec<FibexInstance> = Vec::new();
    assert(instance_views(r@) =~= Seq::<(Seq<char>, u32, bool)>::empty());
    for k in 0..nodes.len()
        invariant
            xml::in_doc(doc@, nodes@),
            instance_views(r@) == instances(doc@, nodes@, k as int),
    {
        assert(nodes@[k as int] < doc@.len());
        let n: usize = nodes[k];
        let signal: String = or_default(xml::ref_of(doc, n, "SIGNAL-REF"));
        if !signal.as_str().is_empty() {
            let start_bit: u32 = xml::u32_or(
                doc,
                n,
                &xml::tags3("BIT-POSITION", "START-BIT-POSITION", "START-POSITION"),
                0,
            );
            let big_endian: bool = match xml::text_of(
                doc,
                n,
                &xml::tags1("IS-HIGH-LOW-BYTE-ORDER"),
            ) {
                Some(t) => text::equals_ignoring_case(t.as_str(), "true"),
                None => true,
            };
            let ghost before = r@;
            r.push(FibexInstance { signal, start_bit, big_endian });
            assert(instance_views(r@) =~= instance_views(before).push(
                (signal@, start_bit, big_endian),
            ));
        }
    }
    r
}

/// The placements among the first `n` elements that refer to a PDU. BIT-POSITION
/// is in bits; the other tags are in bytes.
pub open spec fn placements(doc: Seq<XmlNode>, nodes: Seq<usize>, n: int) -> Seq<(Seq<char>, u32)>
    decreases n,
{
    if n <= 0 {
        Seq::<(Seq<char>, u32)>::empty()
    } else {
        let rest = placements(doc, nodes, n - 1);
        let i = nodes[n - 1] as int;
        let pdu = xml::or_empty(xml::reference_of(doc, i, "PDU-REF"@));
        if pdu.len() == 0 {
            rest
        } else {
            rest.push(
                (
                    pdu,
                    match xml::number_under(doc, i, seq!["BIT-POSITION"]) {
                        Some(bits) => (bits / 8) as u32,
                        None => xml::number_or(
                            doc,
                            i,
                            seq!["START-BIT-POSITION", "START-POSITION"],
                            0,
                        ) as u32,
                    },
                ),
            )
        }
    }
}

/// The PDU placements of a frame: those of PDU-MAPPING, and where there are none,
/// those of PDU-INSTANCE.
pub open spec fn placements_under(doc: Seq<XmlNode>, i: int) -> Seq<(Seq<char>, u32)> {
    let mappings = xml::collected(doc, i, "PDU-MAPPING"@);
    let inst = xml::collected(doc, i, "PDU-INSTANCE"@);
    let first = placements(doc, mappings, mappings.len() as int);
    if first.len() > 0 {
        first
    } else {
        placements(doc, inst, inst.len() as int)
    }
}

fn read_placements(doc: &Vec<XmlNode>, nodes: &Vec<usize>) -> (r: Vec<(String, u32)>)
    requires
        xml::in_doc(doc@, nodes@),
    ensures
        fr_db::placement_views(r@) == placements(doc@, nodes@, nodes@.len() as int),
{
    let mut r: Vec<(String, u32)> = Vec::new();
    assert(fr_db::placement_views(r@) =~= Seq::<(Seq<char>, u32)>::empty());
    for k in 0..nodes.len()
        invariant
            xml::in_doc(doc@, nodes@),
            fr_db::placement_views(r@) == placements(doc@, nodes@, k as int),
    {
        assert(nodes@[k as int] < doc@.len());
        let n: usize = nodes[k];
        let pdu: String = or_default(xml::ref_of(doc, n, "PDU-REF"));
        if !pdu.as_str().is_empty() {
            let start: u32 = match xml::u32_of(doc, n, &xml::tags1("BIT-POSITION")) {
                Some(bits) => bits / 8,
                None => xml::u32_or(
                    doc,
                    n,
                    &xml::tags2("START-BIT-POSITION", "START-POSITION"),
                    0,
                ),
            };
            let ghost before = r@;
            r.push((pdu, start));
            assert(fr_db::placement_views(r@) =~= fr_db::placement_views(before).push(
                (pdu@, start),
            ));
        }
    }
    r
}

/// FRAME's PDU placements: (PDU ref id, start byte).
fn parse_pdu_placements(doc: &Vec<XmlNode>, i: usize) -> (r: Vec<(String, u32)>)
    requires
        i < doc@.len(),
    ensures
        fr_db::placement_views(r@) == placements_under(doc@, i as int),
{
    let first: Vec<(String, u32)> = read_placements(doc, &xml::collect(doc, i, "PDU-MAPPING"));
    if first.len() > 0 {
        return first;
    }
    read_placements(doc, &xml::collect(doc, i, "PDU-INSTANCE"))
}

/// A PDU before its references are resolved.
pub struct FibexPdu {
    pub id: String,
    pub name: String,
    pub length: u32,
    pub dynamic: bool,
    pub comment: String,
    pub instances: Vec<FibexInstance>,
}

/// The PDU type names a dynamic or event PDU.
pub open spec fn dynamic_type(t: Option<Seq<char>>) -> bool {
    let u = text::upper_text(xml::or_empty(t));
    u == "DYNAMIC-PDU"@ || u == "EVENT-PDU"@
}

/// `p` is what the PDU element `i` states.
pub open spec fn is_pdu(p: FibexPdu, doc: Seq<XmlNode>, i: int) -> bool {
    &&& p.id@ == id_of(doc, i)
    &&& p.name@ == xml::name_of(doc, i)
    &&& p.length == xml::number_or(doc, i, seq!["PDU-LENGTH", "BYTE-LENGTH"], 4)
    &&& p.dynamic == dynamic_type(xml::text_under(doc, i, seq!["PDU-TYPE"]))
    &&& p.comment@ == xml::or_empty(xml::text_under(doc, i, seq!["DESC", "DESCRIPTION"]))
    &&& instance_views(p.instances@) == instances_under(doc, i)
}

/// `pdus` is what the PDU elements with an ID state.
pub open spec fn are_pdus(pdus: Seq<FibexPdu>, doc: Seq<XmlNode>, root: int) -> bool {
    let nodes = elements(doc, root, "PDU"@);
    &&& pdus.len() == nodes.len()
    &&& forall|k: int| 0 <= k < pdus.len() ==> is_pdu(#[trigger] pdus[k], doc, nodes[k] as int)
}

fn read_pdus(doc: &Vec<XmlNode>, root: usize) -> (r: Vec<FibexPdu>)
    requires
        root < doc@.len(),
    ensures
        are_pdus(r@, doc@, root as int),
{
    let nodes: Vec<usize> = identified_elements(doc, root, "PDU");
    let mut r: Vec<FibexPdu> = Vec::new();
    for k in 0..nodes.len()
        invariant
            xml::in_doc(doc@, nodes@),
            r@.len() == k,
            forall|j: int| 0 <= j < k ==> is_pdu(#[trigger] r@[j], doc@, nodes@[j] as int),
    {
        assert(nodes@[k as int] < doc@.len());
        let i: usize = nodes[k];
        let kind: String = text::uppercase(
            or_default(xml::text_of(doc, i, &xml::tags1("PDU-TYPE"))).as_str(),
        );
        r.push(
            FibexPdu {
                id: or_default(xml::attribute(doc, i, "ID")),
                name: xml::short_name(doc, i),
                length: xml::u32_or(doc, i, &xml::tags2("PDU-LENGTH", "BYTE-LENGTH"), 4),
                dynamic: text::same_text(kind.as_str(), "DYNAMIC-PDU") || text::same_text(
                    kind.as_str(),
                    "EVENT-PDU",
                ),
                comment: or_default(xml::text_of(doc, i, &xml::tags2("DESC", "DESCRIPTION"))),
                instances: parse_signal_instances(doc, i),
            },
        );
    }
    r
}

/// A frame before its references are resolved.
pub struct FibexFrame {
    pub id: String,
    pub name: String,
    pub length: u32,
    pub payload_preamble: bool,
    pub comment: String,
    pub placements: Vec<(String, u32)>,
    pub instances: Vec<FibexInstance>,
}

/// `f` is what the FRAME element `i` states.
pub open spec fn is_frame(f: FibexFrame, doc: Seq<XmlNode>, i: int) -> bool {
    &&& f.id@ == id_of(doc, i)
    &&& f.name@ == xml::name_of(doc, i)
    &&& f.length == xml::number_or(doc, i, seq!["FRAME-LENGTH", "BYTE-LENGTH"], 8)
    &&& f.payload_preamble == xml::says_true(doc, i, seq!["PAYLOAD-PREAMBLE"])
    &&& f.comment@ == xml::or_empty(xml::text_under(doc, i, seq!["DESC", "DESCRIPTION"]))
    &&& fr_db::placement_views(f.placements@) == placements_under(doc, i)
    &&& instance_views(f.instances@) == instances_under(doc, i)
}

/// `frames` is what the FRAME elements with an ID state.
pub open spec fn are_frames(frames: Seq<FibexFrame>, doc: Seq<XmlNode>, root: int) -> bool {
    let nodes = elements(doc, root, "FRAME"@);
    &&& frames.len() == nodes.len()
    &&& forall|k: int|
        0 <= k < frames.len() ==> is_frame(#[trigger] frames[k], doc, nodes[k] as int)
}

fn read_frames(doc: &Vec<XmlNode>, root: usize) -> (r: Vec<FibexFrame>)
    requires
        root < doc@.len(),
    ensures
        are_frames(r@, doc@, root as int),
{
    let nodes: Vec<usize> = identified_elements(doc, root, "FRAME");
    let mut r: Vec<FibexFrame> = Vec::new();
    for k in 0..nodes.len()
        invariant
            xml::in_doc(doc@, nodes@),
            r@.len() == k,
            forall|j: int| 0 <= j < k ==> is_frame(#[trigger] r@[j], doc@, nodes@[j] as int),
    {
        assert(nodes@[k as int] < doc@.len());
        let i: usize = nodes[k];
        r.push(
            FibexFrame {
                id: or_default(xml::attribute(doc, i, "ID")),
                name: xml::short_name(doc, i),
                length: xml::u32_or(doc, i, &xml::tags2("FRAME-LENGTH", "BYTE-LENGTH"), 8),
                payload_preamble: xml::truthy(doc, i, &xml::tags1("PAYLOAD-PREAMBLE")),
                comment: or_default(xml::text_of(doc, i, &xml::tags2("DESC", "DESCRIPTION"))),
                placements: parse_pdu_placements(doc, i),
                instances: parse_signal_instances(doc, i),
            },
        );
    }
    r
}

/// The channel that an identifier names: B where it holds a B, A where it holds
/// an A.
pub open spec fn channel_named(t: Option<Seq<char>>) -> Option<FrChannel> {
    match t {
        Some(s) => {
            let u = text::upper_text(text::trimmed(s));
            if u.contains('B') {
                Some(FrChannel::B)
            } else if u.contains('A') {
                Some(FrChannel::A)
            } else {
                None
            }
        },
        None => None,
    }
}

/// Channel attribution: explicit identifier elements first; then a name that
/// holds a B, or the second of two channels.
pub open spec fn channel_of(doc: Seq<XmlNode>, i: int, index: int, total: int) -> FrChannel {
    let a = channel_named(xml::text_under(doc, i, seq!["FLEXRAY-CHANNEL-NAME"]));
    let b = channel_named(xml::text_under(doc, i, seq!["CHANNEL-IDENTIFIER"]));
    if a is Some {
        a->0
    } else if b is Some {
        b->0
    } else if text::upper_text(xml::name_of(doc, i)).contains('B') || (index == 1 && total == 2) {
        FrChannel::B
    } else {
        FrChannel::A
    }
}

/// Whether the character stands in the text.
pub(crate) fn holds_char(s: &str, c: char) -> (r: bool)
    ensures
        r == s@.contains(c),
{
    let chars: Vec<char> = text::chars_of(s);
    for k in 0..chars.len()
        invariant
            chars@ == s@,
            forall|j: int| 0 <= j < k ==> s@[j] != c,
    {
        if chars[k] == c {
            assert(s@[k as int] == c);
            return true;
        }
    }
    false
}

fn named_channel(t: &Option<String>) -> (r: Option<FrChannel>)
    ensures
        r == channel_named(xml::text_view(*t)),
{
    match t {
        Some(s) => {
            let u: String = text::uppercase(text::trim(s.as_str()).as_str());
            if holds_char(u.as_str(), 'B') {
                Some(FrChannel::B)
            } else if holds_char(u.as_str(), 'A') {
                Some(FrChannel::A)
            } else {
                None
            }
        },
        None => None,
    }
}

fn classify_channel(doc: &Vec<XmlNode>, i: usize, index: usize, total: usize) -> (r: FrChannel)
    requires
        i < doc@.len(),
    ensures
        r == channel_of(doc@, i as int, index as int, total as int),
{
    if let Some(ch) = named_channel(&xml::text_of(doc, i, &xml::tags1("FLEXRAY-CHANNEL-NAME"))) {
        return ch;
    }
    if let Some(ch) = named_channel(&xml::text_of(doc, i, &xml::tags1("CHANNEL-IDENTIFIER"))) {
        return ch;
    }
    let name: String = text::uppercase(xml::short_name(doc, i).as_str());
    if holds_char(name.as_str(), 'B') || (index == 1 && total == 2) {
        FrChannel::B
    } else {
        FrChannel::A
    }
}

/// The repetition under CYCLE-REPETITION, at least 1.
pub open spec fn repetition_under(doc: Seq<XmlNode>, i: int) -> int {
    match xml::text_under(doc, i, seq!["CYCLE-REPETITION"]) {
        Some(t) => match fr_text::repetition_in(t) {
            Some(v) => if v == 0 {
                1
            } else {
                v as int
            },
            None => 1,
        },
        None => 1,
    }
}

/// The repetition under CYCLE-REPETITION, at least 1.
pub(crate) fn repetition_of(doc: &Vec<XmlNode>, i: usize) -> (r: u32)
    requires
        i < doc@.len(),
    ensures
        r == repetition_under(doc@, i as int),
{
    match xml::text_of(doc, i, &xml::tags1("CYCLE-REPETITION")) {
        Some(t) => match fr_text::parse_cycle_repetition(t.as_str()) {
            Some(v) => if v == 0 { 1 } else { v },
            None => 1,
        },
        None => 1,
    }
}

/// The slot of a FRAME-TRIGGERING: its own SLOT-ID, or that of the SLOT element
/// around it.
pub open spec fn slot_of(doc: Seq<XmlNode>, i: int) -> int {
    match xml::number_under(doc, i, seq!["SLOT-ID"]) {
        Some(v) => v as int,
        None => match xml::ancestor_of(doc, i, "SLOT"@) {
            Some(slot) => xml::number_or(doc, slot as int, seq!["SLOT-ID"], 0),
            None => 0,
        },
    }
}

/// What the FRAME-TRIGGERING element `i` on channel `ch` schedules.
pub open spec fn triggering_at(doc: Seq<XmlNode>, i: int, ch: FrChannel) -> FrTriggering {
    FrTriggering {
        channel: ch,
        slot_id: slot_of(doc, i) as u32,
        base_cycle: xml::number_or(doc, i, seq!["BASE-CYCLE"], 0) as u32,
        cycle_repetition: repetition_under(doc, i) as u32,
        startup: xml::says_true(doc, i, seq!["STARTUP-FRAME", "IS-STARTUP-FRAME"]),
    }
}

/// The triggerings among the first `n` elements that refer to a frame.
pub open spec fn triggerings_on(doc: Seq<XmlNode>, nodes: Seq<usize>, n: int, ch: FrChannel) -> Seq<
    (Seq<char>, FrTriggering),
>
    decreases n,
{
    if n <= 0 {
        Seq::<(Seq<char>, FrTriggering)>::empty()
    } else {
        let rest = triggerings_on(doc, nodes, n - 1, ch);
        let i = nodes[n - 1] as int;
        let frame = xml::or_empty(xml::reference_of(doc, i, "FRAME-REF"@));
        if frame.len() == 0 {
            rest
        } else {
            rest.push((frame, triggering_at(doc, i, ch)))
        }
    }
}

/// The triggerings of the first `n` channels, in document order.
pub open spec fn triggerings(doc: Seq<XmlNode>, channels: Seq<usize>, n: int) -> Seq<
    (Seq<char>, FrTriggering),
>
    decreases n,
{
    if n <= 0 {
        Seq::<(Seq<char>, FrTriggering)>::empty()
    } else {
        let c = channels[n - 1] as int;
        let nodes = xml::collected(doc, c, "FRAME-TRIGGERING"@);
        triggerings(doc, channels, n - 1) + triggerings_on(
            doc,
            nodes,
            nodes.len() as int,
            channel_of(doc, c, n - 1, channels.len() as int),
        )
    }
}

fn read_triggering(doc: &Vec<XmlNode>, i: usize, ch: FrChannel) -> (r: FrTriggering)
    requires
        i < doc@.len(),
    ensures
        r == triggering_at(doc@, i as int, ch),
{
    let slot_id: u32 = match xml::u32_of(doc, i, &xml::tags1("SLOT-ID")) {
        Some(v) => v,
        None => match xml::find_ancestor(doc, i, "SLOT") {
            Some(slot) => xml::u32_or(doc, slot, &xml::tags1("SLOT-ID"), 0),
            None => 0,
        },
    };
    FrTriggering {
        channel: ch,
        slot_id,
        base_cycle: xml::u32_or(doc, i, &xml::tags1("BASE-CYCLE"), 0),
        cycle_repetition: repetition_of(doc, i),
        startup: xml::truthy(doc, i, &xml::tags2("STARTUP-FRAME", "IS-STARTUP-FRAME")),
    }
}

fn read_triggerings(doc: &Vec<XmlNode>, root: usize) -> (r: Vec<(String, FrTriggering)>)
    requires
        root < doc@.len(),
    ensures
        fr_db::triggering_views(r@) == ({
            let channels = xml::collected(doc@, root as int, "CHANNEL"@);
            triggerings(doc@, channels, channels.len() as int)
        }),
{
    let channels: Vec<usize> = xml::collect(doc, root, "CHANNEL");
    let mut r: Vec<(String, FrTriggering)> = Vec::new();
    assert(fr_db::triggering_views(r@) =~= Seq::<(Seq<char>, FrTriggering)>::empty());
    for c in 0..channels.len()
        invariant
            xml::in_doc(doc@, channels@),
            fr_db::triggering_views(r@) == triggerings(doc@, channels@, c as int),
    {
        assert(channels@[c as int] < doc@.len());
        let ch: FrChannel = classify_channel(doc, channels[c], c, channels.len());
        let nodes: Vec<usize> = xml::collect(doc, channels[c], "FRAME-TRIGGERING");
        let ghost outer = fr_db::triggering_views(r@);
        for k in 0..nodes.len()
            invariant
                xml::in_doc(doc@, nodes@),
                fr_db::triggering_views(r@) =~= outer + triggerings_on(
                    doc@,
                    nodes@,
                    k as int,
                    ch,
                ),
        {
            assert(nodes@[k as int] < doc@.len());
            let frame: String = or_default(xml::ref_of(doc, nodes[k], "FRAME-REF"));
            if !frame.as_str().is_empty() {
                let t: FrTriggering = read_triggering(doc, nodes[k], ch);
                let ghost before = r@;
                r.push((frame, t));
                assert(fr_db::triggering_views(r@) =~= fr_db::triggering_views(before).push(
                    (frame@, t),
                ));
            }
        }
    }
    r
}

/// Everything that the document states, before references are resolved.
pub struct FibexParts {
    pub codings: Vec<FibexCoding>,
    pub signals: Vec<FibexSignal>,
    pub pdus: Vec<FibexPdu>,
    pub frames: Vec<FibexFrame>,
    pub triggerings: Vec<(String, FrTriggering)>,
}

impl FibexParts {
    /// Holds what the document states.
    pub open spec fn is_of(self, doc: Seq<XmlNode>, root: int) -> bool {
        let channels = xml::collected(doc, root, "CHANNEL"@);
        &&& are_codings(self.codings@, doc, root)
        &&& are_signals(self.signals@, doc, root)
        &&& are_pdus(self.pdus@, doc, root)
        &&& are_frames(self.frames@, doc, root)
        &&& fr_db::triggering_views(self.triggerings@) == triggerings(
            doc,
            channels,
            channels.len() as int,
        )
    }
}

/// The index of the last signal with that ID, or -1.
pub open spec fn last_signal(signals: Seq<FibexSignal>, id: Seq<char>) -> int
    decreases signals.len(),
{
    if signals.len() == 0 {
        -1
    } else if signals.last().id@ == id {
        signals.len() - 1
    } else {
        last_signal(signals.drop_last(), id)
    }
}

/// The index of the last coding with that ID, or -1.
pub open spec fn last_coding(codings: Seq<FibexCoding>, id: Seq<char>) -> int
    decreases codings.len(),
{
    if codings.len() == 0 {
        -1
    } else if codings.last().id@ == id {
        codings.len() - 1
    } else {
        last_coding(codings.drop_last(), id)
    }
}

fn find_signal(signals: &Vec<FibexSignal>, id: &String) -> (r: Option<usize>)
    ensures
        match r {
            Some(k) => last_signal(signals@, id@) == k && k < signals@.len(),
            None => last_signal(signals@, id@) == -1,
        },
{
    let mut i: usize = signals.len();
    assert(signals@.subrange(0, signals@.len() as int) =~= signals@);
    while i > 0
        invariant
            i <= signals@.len(),
            last_signal(signals@, id@) == last_signal(signals@.subrange(0, i as int), id@),
        decreases i,
    {
        i = i - 1;
        assert(signals@.subrange(0, i + 1).drop_last() =~= signals@.subrange(0, i as int));
        if signals[i].id == *id {
            return Some(i);
        }
    }
    None
}

fn find_coding(codings: &Vec<FibexCoding>, id: &String) -> (r: Option<usize>)
    ensures
        match r {
            Some(k) => last_coding(codings@, id@) == k && k < codings@.len(),
            None => last_coding(codings@, id@) == -1,
        },
{
    let mut i: usize = codings.len();
    assert(codings@.subrange(0, codings@.len() as int) =~= codings@);
    while i > 0
        invariant
            i <= codings@.len(),
            last_coding(codings@, id@) == last_coding(codings@.subrange(0, i as int), id@),
        decreases i,
    {
        i = i - 1;
        assert(codings@.subrange(0, i + 1).drop_last() =~= codings@.subrange(0, i as int));
        if codings[i].id == *id {
            return Some(i);
        }
    }
    None
}

/// `s` is the signal at the instance: the definition of the signal, with the
/// encoding of the coding it refers to, or the plain one where there is none.
pub open spec fn is_placed_signal(
    s: FrSignal,
    at: (Seq<char>, u32, bool),
    def: FibexSignal,
    codings: Seq<FibexCoding>,
) -> bool {
    let c = last_coding(codings, def.coding@);
    &&& s.name@ == def.name@
    &&& s.comment@ == def.comment@
    &&& s.start_bit == at.1
    &&& s.big_endian == at.2
    &&& if 0 <= c < codings.len() {
        &&& s.length_bits == codings[c].bit_length
        &&& s.signed == codings[c].signed
        &&& s.factor@ == codings[c].factor@
        &&& s.offset@ == codings[c].offset@
        &&& s.min@ == codings[c].min@
        &&& s.max@ == codings[c].max@
        &&& s.unit@ == codings[c].unit@
        &&& fr_db::label_views(s.value_descriptions@) == fr_db::label_views(codings[c].labels@)
    } else {
        &&& s.length_bits == 1
        &&& !s.signed
        &&& s.factor@ == "1"@
        &&& s.offset@ == "0"@
        &&& s.min@ == "0"@
        &&& s.max@ == "0"@
        &&& s.unit@ == ""@
        &&& s.value_descriptions@.len() == 0
    }
}

/// The instances among the first `n` whose signal is defined.
pub open spec fn resolved(
    at: Seq<(Seq<char>, u32, bool)>,
    signals: Seq<FibexSignal>,
    n: int,
) -> Seq<int>
    decreases n,
{
    if n <= 0 {
        Seq::<int>::empty()
    } else if last_signal(signals, at[n - 1].0) >= 0 {
        resolved(at, signals, n - 1).push(n - 1)
    } else {
        resolved(at, signals, n - 1)
    }
}

/// `built` holds the signals of the instances, without the undefined ones.
pub open spec fn are_placed_signals(
    built: Seq<FrSignal>,
    at: Seq<(Seq<char>, u32, bool)>,
    signals: Seq<FibexSignal>,
    codings: Seq<FibexCoding>,
) -> bool {
    let known = resolved(at, signals, at.len() as int);
    &&& built.len() == known.len()
    &&& forall|k: int|
        0 <= k < built.len() ==> is_placed_signal(
            #[trigger] built[k],
            at[known[k]],
            signals[last_signal(signals, at[known[k]].0)],
            codings,
        )
}

fn copy_labels(labels: &Vec<(i64, String)>) -> (r: Vec<(i64, String)>)
    ensures
        r@ == labels@,
{
    let mut r: Vec<(i64, String)> = Vec::new();
    for i in 0..labels.len()
        invariant
            r@ == labels@.subrange(0, i as int),
    {
        r.push((labels[i].0, labels[i].1.clone()));
        assert(r@ =~= labels@.subrange(0, i + 1));
    }
    assert(r@ =~= labels@);
    r
}

fn place_signal(at: &FibexInstance, def: &FibexSignal, codings: &Vec<FibexCoding>) -> (s: FrSignal)
    ensures
        is_placed_signal(s, (at.signal@, at.start_bit, at.big_endian), *def, codings@),
{
    match find_coding(codings, &def.coding) {
        Some(k) => {
            let c: &FibexCoding = &codings[k];
            FrSignal {
                name: def.name.clone(),
                start_bit: at.start_bit,
                length_bits: c.bit_length,
                big_endian: at.big_endian,
                signed: c.signed,
                factor: c.factor.clone(),
                offset: c.offset.clone(),
                min: c.min.clone(),
                max: c.max.clone(),
                unit: c.unit.clone(),
                comment: def.comment.clone(),
                value_descriptions: copy_labels(&c.labels),
            }
        },
        None => FrSignal {
            name: def.name.clone(),
            start_bit: at.start_bit,
            length_bits: 1,
            big_endian: at.big_endian,
            signed: false,
            factor: "1".to_owned(),
            offset: "0".to_owned(),
            min: "0".to_owned(),
            max: "0".to_owned(),
            unit: "".to_owned(),
            comment: def.comment.clone(),
            value_descriptions: Vec::new(),
        },
    }
}

fn build_signals(
    at: &Vec<FibexInstance>,
    signals: &Vec<FibexSignal>,
    codings: &Vec<FibexCoding>,
) -> (r: Vec<FrSignal>)
    ensures
        are_placed_signals(r@, instance_views(at@), signals@, codings@),
{
    let ghost views = instance_views(at@);
    let mut r: Vec<FrSignal> = Vec::new();
    for i in 0..at.len()
        invariant
            views == instance_views(at@),
            r@.len() == resolved(views, signals@, i as int).len(),
            forall|k: int|
                0 <= k < r@.len() ==> is_placed_signal(
                    #[trigger] r@[k],
                    views[resolved(views, signals@, i as int)[k]],
                    signals@[last_signal(
                        signals@,
                        views[resolved(views, signals@, i as int)[k]].0,
                    )],
                    codings@,
                ),
    {
        let ghost known = resolved(views, signals@, i as int);
        let ghost before = r@;
        assert(views[i as int] == (
            at@[i as int].signal@,
            at@[i as int].start_bit,
            at@[i as int].big_endian,
        ));
        if let Some(d) = find_signal(signals, &at[i].signal) {
            r.push(place_signal(&at[i], &signals[d], codings));
            proof {
                let next = resolved(views, signals@, i + 1);
                assert(next == known.push(i as int));
                assert forall|k: int| 0 <= k < r@.len() implies is_placed_signal(
                    #[trigger] r@[k],
                    views[next[k]],
                    signals@[last_signal(signals@, views[next[k]].0)],
                    codings@,
                ) by {
                    if k < before.len() {
                        assert(r@[k] == before[k]);
                    }
                }
            }
        } else {
            assert(resolved(views, signals@, i + 1) == known);
        }
    }
    r
}

/// A frame that carries signals but places no PDU: the dialect without a PDU
/// layer.
pub open spec fn is_bare(f: FibexFrame) -> bool {
    f.placements@.len() == 0 && f.instances@.len() > 0
}

/// The bare frames among the first `n`.
pub open spec fn bare_frames(frames: Seq<FibexFrame>, n: int) -> Seq<int>
    decreases n,
{
    if n <= 0 {
        Seq::<int>::empty()
    } else if is_bare(frames[n - 1]) {
        bare_frames(frames, n - 1).push(n - 1)
    } else {
        bare_frames(frames, n - 1)
    }
}

/// The ID of the PDU that stands for a bare frame.
pub open spec fn stand_in_id(frame: Seq<char>) -> Seq<char> {
    "__synth_"@ + frame
}

/// The ID of PDU `k`: the stated ones, then those that stand for bare frames.
pub open spec fn pdu_id(parts: FibexParts, k: int) -> Seq<char> {
    let n = parts.pdus@.len() as int;
    if k < n {
        parts.pdus@[k].id@
    } else {
        let bare = bare_frames(parts.frames@, parts.frames@.len() as int);
        stand_in_id(parts.frames@[bare[k - n]].id@)
    }
}

/// The name of PDU `k`.
pub open spec fn pdu_name(parts: FibexParts, k: int) -> Seq<char> {
    let n = parts.pdus@.len() as int;
    if k < n {
        parts.pdus@[k].name@
    } else {
        let bare = bare_frames(parts.frames@, parts.frames@.len() as int);
        parts.frames@[bare[k - n]].name@
    }
}

/// How many PDUs there are, the stand-ins among them.
pub open spec fn pdu_count(parts: FibexParts) -> int {
    (parts.pdus@.len() + bare_frames(parts.frames@, parts.frames@.len() as int).len()) as int
}

/// The first PDU at `from` or later with that ID, or -1.
pub open spec fn first_pdu(parts: FibexParts, id: Seq<char>, from: int) -> int
    decreases pdu_count(parts) - from,
{
    if from < 0 || from >= pdu_count(parts) {
        -1
    } else if pdu_id(parts, from) == id {
        from
    } else {
        first_pdu(parts, id, from + 1)
    }
}

/// The placements among the first `n` whose PDU there is, by the PDU's name.
pub open spec fn placed_pdus(
    parts: FibexParts,
    stated: Seq<(Seq<char>, u32)>,
    n: int,
) -> Seq<(Seq<char>, u32)>
    decreases n,
{
    if n <= 0 {
        Seq::<(Seq<char>, u32)>::empty()
    } else {
        let rest = placed_pdus(parts, stated, n - 1);
        let k = first_pdu(parts, stated[n - 1].0, 0);
        if k < 0 {
            rest
        } else {
            rest.push((pdu_name(parts, k), stated[n - 1].1))
        }
    }
}

/// The placements of a frame: the stated ones, or its stand-in at byte 0.
pub open spec fn frame_placements(f: FibexFrame) -> Seq<(Seq<char>, u32)> {
    if is_bare(f) {
        seq![(stand_in_id(f.id@), 0u32)]
    } else {
        fr_db::placement_views(f.placements@)
    }
}

/// `p` is PDU `k` with its references resolved.
pub open spec fn is_built_pdu(p: FrPdu, parts: FibexParts, k: int) -> bool {
    let n = parts.pdus@.len() as int;
    let bare = bare_frames(parts.frames@, parts.frames@.len() as int);
    &&& p.name@ == pdu_name(parts, k)
    &&& if k < n {
        &&& p.length == parts.pdus@[k].length
        &&& p.dynamic == parts.pdus@[k].dynamic
        &&& p.comment@ == parts.pdus@[k].comment@
        &&& are_placed_signals(
            p.signals@,
            instance_views(parts.pdus@[k].instances@),
            parts.signals@,
            parts.codings@,
        )
    } else {
        &&& p.length == parts.frames@[bare[k - n]].length
        &&& !p.dynamic
        &&& p.comment@ == parts.frames@[bare[k - n]].comment@
        &&& are_placed_signals(
            p.signals@,
            instance_views(parts.frames@[bare[k - n]].instances@),
            parts.signals@,
            parts.codings@,
        )
    }
}

/// `f` is frame `k` with its references resolved.
pub open spec fn is_built_frame(f: FrFrameDb, parts: FibexParts, k: int) -> bool {
    let raw = parts.frames@[k];
    let stated = frame_placements(raw);
    &&& f.name@ == raw.name@
    &&& f.length == raw.length
    &&& f.payload_preamble == raw.payload_preamble
    &&& f.comment@ == raw.comment@
    &&& f.triggering == fr_db::triggering_or_none(
        fr_db::merged_triggering(fr_db::triggering_views(parts.triggerings@), raw.id@),
    )
    &&& fr_db::placement_views(f.pdus@) == placed_pdus(parts, stated, stated.len() as int)
}

fn find_bare_frames(frames: &Vec<FibexFrame>) -> (r: Vec<usize>)
    ensures
        r@.len() == bare_frames(frames@, frames@.len() as int).len(),
        forall|k: int|
            0 <= k < r@.len() ==> #[trigger] r@[k] < frames@.len() && r@[k] == bare_frames(
                frames@,
                frames@.len() as int,
            )[k],
{
    let mut r: Vec<usize> = Vec::new();
    for i in 0..frames.len()
        invariant
            r@.len() == bare_frames(frames@, i as int).len(),
            forall|k: int|
                0 <= k < r@.len() ==> #[trigger] r@[k] < frames@.len() && r@[k] == bare_frames(
                    frames@,
                    i as int,
                )[k],
    {
        if frames[i].placements.len() == 0 && frames[i].instances.len() > 0 {
            r.push(i);
        }
    }
    r
}

/// The IDs and names of all PDUs.
fn pdu_index(parts: &FibexParts, bare: &Vec<usize>) -> (r: Vec<(String, String)>)
    requires
        bare@.len() == bare_frames(parts.frames@, parts.frames@.len() as int).len(),
        forall|k: int|
            0 <= k < bare@.len() ==> #[trigger] bare@[k] < parts.frames@.len() && bare@[k]
                == bare_frames(parts.frames@, parts.frames@.len() as int)[k],
    ensures
        r@.len() == pdu_count(*parts),
        forall|k: int|
            0 <= k < r@.len() ==> (#[trigger] r@[k]).0@ == pdu_id(*parts, k) && r@[k].1@
                == pdu_name(*parts, k),
{
    let mut r: Vec<(String, String)> = Vec::new();
    for k in 0..parts.pdus.len()
        invariant
            r@.len() == k,
            forall|j: int|
                0 <= j < k ==> (#[trigger] r@[j]).0@ == pdu_id(*parts, j) && r@[j].1@ == pdu_name(
                    *parts,
                    j,
                ),
    {
        r.push((parts.pdus[k].id.clone(), parts.pdus[k].name.clone()));
    }
    let ghost n = parts.pdus@.len() as int;
    for k in 0..bare.len()
        invariant
            n == parts.pdus@.len(),
            bare@.len() == bare_frames(parts.frames@, parts.frames@.len() as int).len(),
            forall|k: int|
                0 <= k < bare@.len() ==> #[trigger] bare@[k] < parts.frames@.len() && bare@[k]
                    == bare_frames(parts.frames@, parts.frames@.len() as int)[k],
            r@.len() == n + k,
            forall|j: int|
                0 <= j < n + k ==> (#[trigger] r@[j]).0@ == pdu_id(*parts, j) && r@[j].1@
                    == pdu_name(*parts, j),
    {
        assert(bare@[k as int] < parts.frames@.len());
        let f: &FibexFrame = &parts.frames[bare[k]];
        let mut id: String = "__synth_".to_owned();
        id.append(f.id.as_str());
        r.push((id, f.name.clone()));
    }
    r
}

fn resolve_placements(
    parts: &FibexParts,
    index: &Vec<(String, String)>,
    stated: &Vec<(String, u32)>,
) -> (r: Vec<(String, u32)>)
    requires
        index@.len() == pdu_count(*parts),
        forall|k: int|
            0 <= k < index@.len() ==> (#[trigger] index@[k]).0@ == pdu_id(*parts, k)
                && index@[k].1@ == pdu_name(*parts, k),
    ensures
        fr_db::placement_views(r@) == placed_pdus(
            *parts,
            fr_db::placement_views(stated@),
            stated@.len() as int,
        ),
{
    let ghost views = fr_db::placement_views(stated@);
    let mut r: Vec<(String, u32)> = Vec::new();
    assert(fr_db::placement_views(r@) =~= Seq::<(Seq<char>, u32)>::empty());
    for i in 0..stated.len()
        invariant
            views == fr_db::placement_views(stated@),
            index@.len() == pdu_count(*parts),
            forall|k: int|
                0 <= k < index@.len() ==> (#[trigger] index@[k]).0@ == pdu_id(*parts, k)
                    && index@[k].1@ == pdu_name(*parts, k),
            fr_db::placement_views(r@) == placed_pdus(*parts, views, i as int),
    {
        assert(views[i as int] == (stated@[i as int].0@, stated@[i as int].1));
        let mut k: usize = 0;
        while k < index.len() && index[k].0 != stated[i].0
            invariant
                i < stated@.len(),
                k <= index@.len(),
                index@.len() == pdu_count(*parts),
                forall|k: int|
                    0 <= k < index@.len() ==> (#[trigger] index@[k]).0@ == pdu_id(*parts, k)
                        && index@[k].1@ == pdu_name(*parts, k),
                first_pdu(*parts, stated@[i as int].0@, 0) == first_pdu(
                    *parts,
                    stated@[i as int].0@,
                    k as int,
                ),
            decreases index.len() - k,
        {
            assert(index@[k as int].0@ == pdu_id(*parts, k as int));
            k = k + 1;
        }
        if k < index.len() {
            assert(index@[k as int].0@ == pdu_id(*parts, k as int));
            let ghost before = r@;
            r.push((index[k].1.clone(), stated[i].1));
            assert(fr_db::placement_views(r@) =~= fr_db::placement_views(before).push(
                (index@[k as int].1@, stated@[i as int].1),
            ));
        }
    }
    r
}

/// Resolves the references: PDUs with their signals, and frames with their PDUs
/// and triggering. A frame that carries signals without a PDU layer gets a PDU of
/// its own name.
fn assemble(parts: &FibexParts) -> (r: (Vec<FrPdu>, Vec<FrFrameDb>))
    ensures
        r.0@.len() == pdu_count(*parts),
        forall|k: int| 0 <= k < r.0@.len() ==> is_built_pdu(#[trigger] r.0@[k], *parts, k),
        r.1@.len() == parts.frames@.len(),
        forall|k: int| 0 <= k < r.1@.len() ==> is_built_frame(#[trigger] r.1@[k], *parts, k),
{
    let bare: Vec<usize> = find_bare_frames(&parts.frames);
    let index: Vec<(String, String)> = pdu_index(parts, &bare);
    let mut pdus: Vec<FrPdu> = Vec::new();
    for k in 0..parts.pdus.len()
        invariant
            pdus@.len() == k,
            forall|j: int| 0 <= j < k ==> is_built_pdu(#[trigger] pdus@[j], *parts, j),
    {
        let p: &FibexPdu = &parts.pdus[k];
        pdus.push(
            FrPdu {
                name: p.name.clone(),
                length: p.length,
                dynamic: p.dynamic,
                comment: p.comment.clone(),
                signals: build_signals(&p.instances, &parts.signals, &parts.codings),
            },
        );
    }
    let ghost n = parts.pdus@.len() as int;
    for k in 0..bare.len()
        invariant
            n == parts.pdus@.len(),
            bare@.len() == bare_frames(parts.frames@, parts.frames@.len() as int).len(),
            forall|k: int|
                0 <= k < bare@.len() ==> #[trigger] bare@[k] < parts.frames@.len() && bare@[k]
                    == bare_frames(parts.frames@, parts.frames@.len() as int)[k],
            pdus@.len() == n + k,
            forall|j: int| 0 <= j < n + k ==> is_built_pdu(#[trigger] pdus@[j], *parts, j),
    {
        assert(bare@[k as int] < parts.frames@.len());
        let f: &FibexFrame = &parts.frames[bare[k]];
        pdus.push(
            FrPdu {
                name: f.name.clone(),
                length: f.length,
                dynamic: false,
                comment: f.comment.clone(),
                signals: build_signals(&f.instances, &parts.signals, &parts.codings),
            },
        );
    }
    let mut frames: Vec<FrFrameDb> = Vec::new();
    for k in 0..parts.frames.len()
        invariant
            index@.len() == pdu_count(*parts),
            forall|k: int|
                0 <= k < index@.len() ==> (#[trigger] index@[k]).0@ == pdu_id(*parts, k)
                    && index@[k].1@ == pdu_name(*parts, k),
            frames@.len() == k,
            forall|j: int| 0 <= j < k ==> is_built_frame(#[trigger] frames@[j], *parts, j),
    {
        let f: &FibexFrame = &parts.frames[k];
        let placed: Vec<(String, u32)> = if f.placements.len() == 0 && f.instances.len() > 0 {
            let mut id: String = "__synth_".to_owned();
            id.append(f.id.as_str());
            let mut own: Vec<(String, u32)> = Vec::new();
            own.push((id, 0));
            assert(fr_db::placement_views(own@) =~= frame_placements(*f));
            resolve_placements(parts, &index, &own)
        } else {
            resolve_placements(parts, &index, &f.placements)
        };
        frames.push(
            FrFrameDb {
                name: f.name.clone(),
                length: f.length,
                payload_preamble: f.payload_preamble,
                triggering: fr_db::triggering_of(&parts.triggerings, &f.id),
                pdus: placed,
                comment: f.comment.clone(),
            },
        );
    }
    (pdus, frames)
}

/// The ECU elements, and where there are none, the CONTROLLER elements.
pub open spec fn ecu_nodes(doc: Seq<XmlNode>, root: int) -> Seq<usize> {
    let ecus = xml::collected(doc, root, "ECU"@);
    if ecus.len() == 0 {
        xml::collected(doc, root, "CONTROLLER"@)
    } else {
        ecus
    }
}

/// `db` is the database that the FIBEX document states.
pub open spec fn is_fibex(db: FrDb, doc: Seq<XmlNode>, root: int) -> bool {
    let clusters = xml::collected(doc, root, "CLUSTER"@);
    let ecus = ecu_nodes(doc, root);
    &&& if clusters.len() > 0 {
        fr_params::is_fibex_params(db.params, doc, clusters[0] as int)
    } else {
        fr_params::is_default(db.params)
    }
    &&& fr_db::name_views(db.ecus@) == fr_db::named(doc, ecus, ecus.len() as int)
    &&& exists|parts: FibexParts| #[trigger]
        parts.is_of(doc, root) && are_assembled(db.pdus@, db.frames@, parts)
}

/// The PDUs and frames are those of the parts, with their references resolved.
pub open spec fn are_assembled(pdus: Seq<FrPdu>, frames: Seq<FrFrameDb>, parts: FibexParts) -> bool {
    &&& pdus.len() == pdu_count(parts)
    &&& forall|k: int| 0 <= k < pdus.len() ==> is_built_pdu(#[trigger] pdus[k], parts, k)
    &&& frames.len() == parts.frames@.len()
    &&& forall|k: int| 0 <= k < frames.len() ==> is_built_frame(#[trigger] frames[k], parts, k)
}

/// Reads a FIBEX document. What is absent takes its default, so that no document
/// is refused.
pub fn parse_fibex_doc(doc: &Vec<XmlNode>, root: usize) -> (r: Result<FrDb, String>)
    requires
        root < doc@.len(),
    ensures
        r matches Ok(db) && is_fibex(db, doc@, root as int),
{
    let parts: FibexParts = FibexParts {
        codings: read_codings(doc, root),
        signals: read_signals(doc, root),
        pdus: read_pdus(doc, root),
        frames: read_frames(doc, root),
        triggerings: read_triggerings(doc, root),
    };
    let mut nodes: Vec<usize> = xml::collect(doc, root, "ECU");
    if nodes.len() == 0 {
        nodes = xml::collect(doc, root, "CONTROLLER");
    }
    let ecus: Vec<String> = fr_db::named_elements(doc, &nodes);
    let clusters: Vec<usize> = xml::collect(doc, root, "CLUSTER");
    let params: FrClusterParams = if clusters.len() > 0 {
        assert(clusters@[0] < doc@.len());
        fr_params::fibex_params(doc, clusters[0])
    } else {
        fr_params::default_cluster_params()
    };
    let (pdus, frames): (Vec<FrPdu>, Vec<FrFrameDb>) = assemble(&parts);
    assert(parts.is_of(doc@, root as int) && are_assembled(pdus@, frames@, parts));
    Ok(FrDb { params, ecus, pdus, frames })
}

} // verus!
