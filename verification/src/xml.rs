//! Event model of worksheet markup: tokenized elements, attributes, text
//! and the spec-level views the scanner and rewriter contracts speak of.

use vstd::prelude::*;
use crate::B_COLON;

verus! {

/// One attribute of a markup element: key and raw value text.
#[derive(Debug)]
pub struct Attr {
    pub key: Vec<u8>,
    pub value: Vec<u8>,
}

/// Spec view of an attribute.
pub struct AttrView {
    pub key: Seq<u8>,
    pub value: Seq<u8>,
}

impl DeepView for Attr {
    type V = AttrView;

    open spec fn deep_view(&self) -> AttrView {
        AttrView { key: self.key@, value: self.value@ }
    }
}

/// One tokenized markup event, carrying the raw element name (with any
/// namespace prefix) and raw text, so re-emission preserves the input.
#[derive(Debug)]
pub enum XmlEvent {
    Start { name: Vec<u8>, attrs: Vec<Attr> },
    Empty { name: Vec<u8>, attrs: Vec<Attr> },
    End { name: Vec<u8> },
    Text { text: Vec<u8> },
    CData { text: Vec<u8> },
    Comment { text: Vec<u8> },
    Pi { text: Vec<u8> },
    DocType { text: Vec<u8> },
}

/// Spec view of an event.
pub enum EvView {
    Start { name: Seq<u8>, attrs: Seq<AttrView> },
    Empty { name: Seq<u8>, attrs: Seq<AttrView> },
    End { name: Seq<u8> },
    Text { text: Seq<u8> },
    CData { text: Seq<u8> },
    Comment { text: Seq<u8> },
    Pi { text: Seq<u8> },
    DocType { text: Seq<u8> },
}

/// Spec view of an attribute list.
pub open spec fn view_attrs(s: Seq<Attr>) -> Seq<AttrView> {
    Seq::new(s.len(), |i: int| s[i].deep_view())
}

impl DeepView for XmlEvent {
    type V = EvView;

    open spec fn deep_view(&self) -> EvView {
        match self {
            XmlEvent::Start { name, attrs } => EvView::Start {
                name: name@,
                attrs: view_attrs(attrs@),
            },
            XmlEvent::Empty { name, attrs } => EvView::Empty {
                name: name@,
                attrs: view_attrs(attrs@),
            },
            XmlEvent::End { name } => EvView::End { name: name@ },
            XmlEvent::Text { text } => EvView::Text { text: text@ },
            XmlEvent::CData { text } => EvView::CData { text: text@ },
            XmlEvent::Comment { text } => EvView::Comment { text: text@ },
            XmlEvent::Pi { text } => EvView::Pi { text: text@ },
            XmlEvent::DocType { text } => EvView::DocType { text: text@ },
        }
    }
}

/// Spec view of an event list.
pub open spec fn view_events(s: Seq<XmlEvent>) -> Seq<EvView> {
    Seq::new(s.len(), |i: int| s[i].deep_view())
}

pub proof fn lemma_view_events_push(s: Seq<XmlEvent>, x: XmlEvent)
    ensures
        view_events(s.push(x)) == view_events(s).push(x.deep_view()),
{
    assert(view_events(s.push(x)) =~= view_events(s).push(x.deep_view()));
}

pub proof fn lemma_view_attrs_push(s: Seq<Attr>, x: Attr)
    ensures
        view_attrs(s.push(x)) == view_attrs(s).push(x.deep_view()),
{
    assert(view_attrs(s.push(x)) =~= view_attrs(s).push(x.deep_view()));
}

/// Copies a byte string.
pub fn clone_bytes(v: &[u8]) -> (r: Vec<u8>)
    ensures
        r@ == v@,
{
    let mut r: Vec<u8> = Vec::new();
    let mut i: usize = 0;
    while i < v.len()
        invariant
            0 <= i <= v@.len(),
            r@ == v@.take(i as int),
        decreases v@.len() - i,
    {
        r.push(v[i]);
        assert(r@ =~= v@.take(i + 1));
        i = i + 1;
    }
    assert(r@ =~= v@);
    r
}

/// Copies one attribute.
pub fn clone_attr(a: &Attr) -> (r: Attr)
    ensures
        r.deep_view() == a.deep_view(),
{
    Attr { key: clone_bytes(a.key.as_slice()), value: clone_bytes(a.value.as_slice()) }
}

/// Copies an attribute list.
pub fn clone_attrs(attrs: &Vec<Attr>) -> (r: Vec<Attr>)
    ensures
        view_attrs(r@) == view_attrs(attrs@),
{
    let mut r: Vec<Attr> = Vec::new();
    let mut i: usize = 0;
    while i < attrs.len()
        invariant
            0 <= i <= attrs@.len(),
            view_attrs(r@) == view_attrs(attrs@).take(i as int),
        decreases attrs@.len() - i,
    {
        let a = clone_attr(&attrs[i]);
        proof {
            lemma_view_attrs_push(r@, a);
        }
        r.push(a);
        assert(view_attrs(r@) =~= view_attrs(attrs@).take(i + 1));
        i = i + 1;
    }
    assert(view_attrs(r@) =~= view_attrs(attrs@));
    r
}

/// Copies one event.
pub fn clone_event(ev: &XmlEvent) -> (r: XmlEvent)
    ensures
        r.deep_view() == ev.deep_view(),
{
    match ev {
        XmlEvent::Start { name, attrs } => XmlEvent::Start {
            name: clone_bytes(name.as_slice()),
            attrs: clone_attrs(attrs),
        },
        XmlEvent::Empty { name, attrs } => XmlEvent::Empty {
            name: clone_bytes(name.as_slice()),
            attrs: clone_attrs(attrs),
        },
        XmlEvent::End { name } => XmlEvent::End { name: clone_bytes(name.as_slice()) },
        XmlEvent::Text { text } => XmlEvent::Text { text: clone_bytes(text.as_slice()) },
        XmlEvent::CData { text } => XmlEvent::CData { text: clone_bytes(text.as_slice()) },
        XmlEvent::Comment { text } => XmlEvent::Comment { text: clone_bytes(text.as_slice()) },
        XmlEvent::Pi { text } => XmlEvent::Pi { text: clone_bytes(text.as_slice()) },
        XmlEvent::DocType { text } => XmlEvent::DocType { text: clone_bytes(text.as_slice()) },
    }
}

/// Index of the last colon of a name, if any.
pub open spec fn last_colon(s: Seq<u8>) -> Option<int>
    decreases s.len(),
{
    if s.len() == 0 {
        Option::None
    } else if s.last() == B_COLON {
        Option::Some(s.len() - 1)
    } else {
        last_colon(s.drop_last())
    }
}

/// The local (unqualified) part of an element name: what follows the
/// last colon, or the whole name when there is none.
pub open spec fn local_of(s: Seq<u8>) -> Seq<u8> {
    match last_colon(s) {
        Option::None => s,
        Option::Some(k) => s.skip(k + 1),
    }
}

/// Returns the local part of a possibly prefix-qualified name.
pub fn local_name(s: &[u8]) -> (l: &[u8])
    ensures
        l@ == local_of(s@),
{
    let mut j: usize = s.len();
    proof {
        assert(s@.take(j as int) =~= s@);
    }
    while j > 0
        invariant
            0 <= j <= s@.len(),
            last_colon(s@) == last_colon(s@.take(j as int)),
        decreases j,
    {
        if s[j - 1] == B_COLON {
            assert(s@.take(j as int).last() == B_COLON);
            assert(last_colon(s@) == Option::Some(j - 1));
            let l = vstd::slice::slice_subrange(s, j, s.len());
            assert(l@ =~= s@.skip(j as int));
            return l;
        }
        assert(s@.take(j as int).drop_last() =~= s@.take(j - 1));
        j = j - 1;
    }
    assert(s@.take(0) =~= Seq::<u8>::empty());
    assert(last_colon(s@) == Option::None::<int>);
    s
}

/// A name without a colon is its own local part.
pub proof fn lemma_local_of_plain(s: Seq<u8>)
    requires
        forall|k: int| 0 <= k < s.len() ==> s[k] != B_COLON,
    ensures
        last_colon(s) == Option::None::<int>,
        local_of(s) == s,
    decreases s.len(),
{
    if s.len() > 0 {
        assert(s.last() != B_COLON);
        assert(forall|k: int| 0 <= k < s.drop_last().len()
            ==> #[trigger] s.drop_last()[k] != B_COLON);
        lemma_local_of_plain(s.drop_last());
    }
}

pub open spec fn n_row() -> Seq<u8> {
    seq![114u8, 111u8, 119u8]
}

pub open spec fn n_cell() -> Seq<u8> {
    seq![99u8]
}

pub open spec fn n_dimension() -> Seq<u8> {
    seq![100u8, 105u8, 109u8, 101u8, 110u8, 115u8, 105u8, 111u8, 110u8]
}

pub open spec fn n_merge_cells() -> Seq<u8> {
    seq![109u8, 101u8, 114u8, 103u8, 101u8, 67u8, 101u8, 108u8, 108u8, 115u8]
}

pub open spec fn n_merge_cell() -> Seq<u8> {
    seq![109u8, 101u8, 114u8, 103u8, 101u8, 67u8, 101u8, 108u8, 108u8]
}

pub open spec fn n_value() -> Seq<u8> {
    seq![118u8]
}

pub open spec fn n_formula() -> Seq<u8> {
    seq![102u8]
}

pub open spec fn n_inline_str() -> Seq<u8> {
    seq![105u8, 115u8]
}

pub open spec fn n_cond_fmt() -> Seq<u8> {
    seq![99u8, 111u8, 110u8, 100u8, 105u8, 116u8, 105u8, 111u8, 110u8, 97u8, 108u8, 70u8,
        111u8, 114u8, 109u8, 97u8, 116u8, 116u8, 105u8, 110u8, 103u8]
}

pub open spec fn n_data_validations() -> Seq<u8> {
    seq![100u8, 97u8, 116u8, 97u8, 86u8, 97u8, 108u8, 105u8, 100u8, 97u8, 116u8, 105u8,
        111u8, 110u8, 115u8]
}

pub open spec fn n_page_breaks() -> Seq<u8> {
    seq![112u8, 97u8, 103u8, 101u8, 66u8, 114u8, 101u8, 97u8, 107u8, 115u8]
}

pub open spec fn n_ignored_errors() -> Seq<u8> {
    seq![105u8, 103u8, 110u8, 111u8, 114u8, 101u8, 100u8, 69u8, 114u8, 114u8, 111u8, 114u8,
        115u8]
}

pub open spec fn n_ext_lst() -> Seq<u8> {
    seq![101u8, 120u8, 116u8, 76u8, 115u8, 116u8]
}

pub open spec fn n_phonetic_pr() -> Seq<u8> {
    seq![112u8, 104u8, 111u8, 110u8, 101u8, 116u8, 105u8, 99u8, 80u8, 114u8]
}

pub open spec fn n_attr_r() -> Seq<u8> {
    seq![114u8]
}

pub open spec fn n_attr_ref() -> Seq<u8> {
    seq![114u8, 101u8, 102u8]
}

pub open spec fn n_attr_count() -> Seq<u8> {
    seq![99u8, 111u8, 117u8, 110u8, 116u8]
}

/// Element local names whose whole block is bulk metadata and is elided.
pub open spec fn is_bulk_name(s: Seq<u8>) -> bool {
    ||| s == n_cond_fmt()
    ||| s == n_data_validations()
    ||| s == n_page_breaks()
    ||| s == n_ignored_errors()
    ||| s == n_ext_lst()
    ||| s == n_phonetic_pr()
}

/// Element local names that mark a cell as populated.
pub open spec fn is_marker_name(s: Seq<u8>) -> bool {
    s == n_value() || s == n_formula() || s == n_inline_str()
}

/// How the rewriter and scanner treat an element, by its local name.
#[derive(Clone, Copy, Debug, PartialEq, Eq, Structural)]
pub enum TagKind {
    Dimension,
    Row,
    Cell,
    MergeCells,
    MergeCell,
    Bulk,
    Other,
}

pub open spec fn spec_kind(local: Seq<u8>) -> TagKind {
    if local == n_dimension() {
        TagKind::Dimension
    } else if local == n_row() {
        TagKind::Row
    } else if local == n_cell() {
        TagKind::Cell
    } else if local == n_merge_cells() {
        TagKind::MergeCells
    } else if local == n_merge_cell() {
        TagKind::MergeCell
    } else if is_bulk_name(local) {
        TagKind::Bulk
    } else {
        TagKind::Other
    }
}

/// Compares two byte strings.
pub fn bytes_eq(a: &[u8], b: &[u8]) -> (r: bool)
    ensures
        r == (a@ == b@),
{
    if a.len() != b.len() {
        assert(a@ != b@);
        return false;
    }
    let mut i: usize = 0;
    while i < a.len()
        invariant
            0 <= i <= a@.len(),
            a@.len() == b@.len(),
            forall|k: int| 0 <= k < i ==> a@[k] == #[trigger] b@[k],
        decreases a@.len() - i,
    {
        if a[i] != b[i] {
            assert(a@ != b@);
            return false;
        }
        i = i + 1;
    }
    assert(a@ =~= b@);
    true
}

fn lit_row() -> (v: Vec<u8>)
    ensures
        v@ == n_row(),
{
    let v: Vec<u8> = vec![114u8, 111u8, 119u8];
    assert(v@ =~= n_row());
    v
}

fn lit_cell() -> (v: Vec<u8>)
    ensures
        v@ == n_cell(),
{
    let v: Vec<u8> = vec![99u8];
    assert(v@ =~= n_cell());
    v
}

fn lit_dimension() -> (v: Vec<u8>)
    ensures
        v@ == n_dimension(),
{
    let v: Vec<u8> = vec![100u8, 105u8, 109u8, 101u8, 110u8, 115u8, 105u8, 111u8, 110u8];
    assert(v@ =~= n_dimension());
    v
}

pub fn lit_merge_cells() -> (v: Vec<u8>)
    ensures
        v@ == n_merge_cells(),
{
    let v: Vec<u8> = vec![109u8, 101u8, 114u8, 103u8, 101u8, 67u8, 101u8, 108u8, 108u8, 115u8];
    assert(v@ =~= n_merge_cells());
    v
}

pub fn lit_merge_cell() -> (v: Vec<u8>)
    ensures
        v@ == n_merge_cell(),
{
    let v: Vec<u8> = vec![109u8, 101u8, 114u8, 103u8, 101u8, 67u8, 101u8, 108u8, 108u8];
    assert(v@ =~= n_merge_cell());
    v
}

fn lit_value() -> (v: Vec<u8>)
    ensures
        v@ == n_value(),
{
    let v: Vec<u8> = vec![118u8];
    assert(v@ =~= n_value());
    v
}

fn lit_formula() -> (v: Vec<u8>)
    ensures
        v@ == n_formula(),
{
    let v: Vec<u8> = vec![102u8];
    assert(v@ =~= n_formula());
    v
}

fn lit_inline_str() -> (v: Vec<u8>)
    ensures
        v@ == n_inline_str(),
{
    let v: Vec<u8> = vec![105u8, 115u8];
    assert(v@ =~= n_inline_str());
    v
}

fn lit_cond_fmt() -> (v: Vec<u8>)
    ensures
        v@ == n_cond_fmt(),
{
    let v: Vec<u8> = vec![99u8, 111u8, 110u8, 100u8, 105u8, 116u8, 105u8, 111u8, 110u8, 97u8,
        108u8, 70u8, 111u8, 114u8, 109u8, 97u8, 116u8, 116u8, 105u8, 110u8, 103u8];
    assert(v@ =~= n_cond_fmt());
    v
}

fn lit_data_validations() -> (v: Vec<u8>)
    ensures
        v@ == n_data_validations(),
{
    let v: Vec<u8> = vec![100u8, 97u8, 116u8, 97u8, 86u8, 97u8, 108u8, 105u8, 100u8, 97u8,
        116u8, 105u8, 111u8, 110u8, 115u8];
    assert(v@ =~= n_data_validations());
    v
}

fn lit_page_breaks() -> (v: Vec<u8>)
    ensures
        v@ == n_page_breaks(),
{
    let v: Vec<u8> = vec![112u8, 97u8, 103u8, 101u8, 66u8, 114u8, 101u8, 97u8, 107u8, 115u8];
    assert(v@ =~= n_page_breaks());
    v
}

fn lit_ignored_errors() -> (v: Vec<u8>)
    ensures
        v@ == n_ignored_errors(),
{
    let v: Vec<u8> = vec![105u8, 103u8, 110u8, 111u8, 114u8, 101u8, 100u8, 69u8, 114u8, 114u8,
        111u8, 114u8, 115u8];
    assert(v@ =~= n_ignored_errors());
    v
}

fn lit_ext_lst() -> (v: Vec<u8>)
    ensures
        v@ == n_ext_lst(),
{
    let v: Vec<u8> = vec![101u8, 120u8, 116u8, 76u8, 115u8, 116u8];
    assert(v@ =~= n_ext_lst());
    v
}

fn lit_phonetic_pr() -> (v: Vec<u8>)
    ensures
        v@ == n_phonetic_pr(),
{
    let v: Vec<u8> = vec![112u8, 104u8, 111u8, 110u8, 101u8, 116u8, 105u8, 99u8, 80u8, 114u8];
    assert(v@ =~= n_phonetic_pr());
    v
}

pub fn lit_attr_r() -> (v: Vec<u8>)
    ensures
        v@ == n_attr_r(),
{
    let v: Vec<u8> = vec![114u8];
    assert(v@ =~= n_attr_r());
    v
}

pub fn lit_attr_ref() -> (v: Vec<u8>)
    ensures
        v@ == n_attr_ref(),
{
    let v: Vec<u8> = vec![114u8, 101u8, 102u8];
    assert(v@ =~= n_attr_ref());
    v
}

pub fn lit_attr_count() -> (v: Vec<u8>)
    ensures
        v@ == n_attr_count(),
{
    let v: Vec<u8> = vec![99u8, 111u8, 117u8, 110u8, 116u8];
    assert(v@ =~= n_attr_count());
    v
}

/// Tests whether a local name marks a cell as populated.
pub fn is_marker(local: &[u8]) -> (r: bool)
    ensures
        r == is_marker_name(local@),
{
    bytes_eq(local, lit_value().as_slice()) || bytes_eq(local, lit_formula().as_slice())
        || bytes_eq(local, lit_inline_str().as_slice())
}

/// Classifies an element name by its local part.
pub fn kind_of(name: &[u8]) -> (k: TagKind)
    ensures
        k == spec_kind(local_of(name@)),
{
    let local = local_name(name);
    if bytes_eq(local, lit_dimension().as_slice()) {
        TagKind::Dimension
    } else if bytes_eq(local, lit_row().as_slice()) {
        TagKind::Row
    } else if bytes_eq(local, lit_cell().as_slice()) {
        TagKind::Cell
    } else if bytes_eq(local, lit_merge_cells().as_slice()) {
        TagKind::MergeCells
    } else if bytes_eq(local, lit_merge_cell().as_slice()) {
        TagKind::MergeCell
    } else if bytes_eq(local, lit_cond_fmt().as_slice())
        || bytes_eq(local, lit_data_validations().as_slice())
        || bytes_eq(local, lit_page_breaks().as_slice())
        || bytes_eq(local, lit_ignored_errors().as_slice())
        || bytes_eq(local, lit_ext_lst().as_slice())
        || bytes_eq(local, lit_phonetic_pr().as_slice()) {
        TagKind::Bulk
    } else {
        TagKind::Other
    }
}

/// The value of the last attribute with the given key, if any.
pub open spec fn attr_lookup(attrs: Seq<AttrView>, key: Seq<u8>) -> Option<Seq<u8>>
    decreases attrs.len(),
{
    if attrs.len() == 0 {
        Option::None
    } else if attrs.last().key == key {
        Option::Some(attrs.last().value)
    } else {
        attr_lookup(attrs.drop_last(), key)
    }
}

/// Finds the index of the last attribute with the given key.
pub fn find_attr(attrs: &Vec<Attr>, key: &[u8]) -> (r: Option<usize>)
    ensures
        match r {
            Option::Some(i) => i < attrs@.len()
                && attrs@[i as int].key@ == key@
                && attr_lookup(view_attrs(attrs@), key@)
                    == Option::Some(attrs@[i as int].value@),
            Option::None => attr_lookup(view_attrs(attrs@), key@) == Option::None::<Seq<u8>>,
        },
{
    let ghost va = view_attrs(attrs@);
    let mut j: usize = attrs.len();
    proof {
        assert(va.take(j as int) =~= va);
    }
    while j > 0
        invariant
            0 <= j <= attrs@.len(),
            va == view_attrs(attrs@),
            va.len() == attrs@.len(),
            attr_lookup(va, key@) == attr_lookup(va.take(j as int), key@),
        decreases j,
    {
        assert(va.take(j as int).last() == va[j - 1]);
        assert(va.take(j as int).drop_last() =~= va.take(j - 1));
        if bytes_eq(attrs[j - 1].key.as_slice(), key) {
            assert(attr_lookup(va.take(j as int), key@)
                == Option::Some(va[j - 1].value));
            return Option::Some(j - 1);
        }
        j = j - 1;
    }
    assert(va.take(0) =~= Seq::<AttrView>::empty());
    Option::None
}

} // verus!
