//! Serializer: writes an event stream back out as worksheet markup.
//! Attribute values are kept as raw text; a value is wrapped in double
//! quotes unless it contains one, then in single quotes.

use vstd::prelude::*;
use crate::{B_BANG, B_DASH, B_DQUOTE, B_EQ, B_GT, B_LBRACK, B_LT, B_QMARK, B_RBRACK,
    B_SLASH, B_SPACE, B_SQUOTE};
use crate::xml::{Attr, AttrView, EvView, XmlEvent, view_attrs, view_events};

verus! {

pub open spec fn contains_dq(s: Seq<u8>) -> bool {
    exists|i: int| 0 <= i < s.len() && s[i] == B_DQUOTE
}

/// The quote an attribute value is wrapped in.
pub open spec fn quote_of(v: Seq<u8>) -> u8 {
    if contains_dq(v) {
        B_SQUOTE
    } else {
        B_DQUOTE
    }
}

/// One serialized attribute: ` key="value"`.
pub open spec fn ser_attr(a: AttrView) -> Seq<u8> {
    seq![B_SPACE] + a.key + seq![B_EQ, quote_of(a.value)] + a.value + seq![quote_of(a.value)]
}

pub open spec fn ser_attrs(attrs: Seq<AttrView>, i: int, acc: Seq<u8>) -> Seq<u8>
    decreases attrs.len() - i,
{
    if i < 0 || i >= attrs.len() {
        acc
    } else {
        ser_attrs(attrs, i + 1, acc + ser_attr(attrs[i]))
    }
}

/// One serialized event.
pub open spec fn ser_event(ev: EvView) -> Seq<u8> {
    match ev {
        EvView::Start { name, attrs } => seq![B_LT] + name + ser_attrs(attrs, 0, Seq::empty())
            + seq![B_GT],
        EvView::Empty { name, attrs } => seq![B_LT] + name + ser_attrs(attrs, 0, Seq::empty())
            + seq![B_SLASH, B_GT],
        EvView::End { name } => seq![B_LT, B_SLASH] + name + seq![B_GT],
        EvView::Text { text } => text,
        EvView::CData { text } => seq![B_LT, B_BANG, B_LBRACK, 67u8, 68u8, 65u8, 84u8, 65u8,
            B_LBRACK] + text + seq![B_RBRACK, B_RBRACK, B_GT],
        EvView::Comment { text } => seq![B_LT, B_BANG, B_DASH, B_DASH] + text
            + seq![B_DASH, B_DASH, B_GT],
        EvView::Pi { text } => seq![B_LT, B_QMARK] + text + seq![B_QMARK, B_GT],
        EvView::DocType { text } => seq![B_LT, B_BANG] + text + seq![B_GT],
    }
}

pub open spec fn ser_events(evs: Seq<EvView>, i: int, acc: Seq<u8>) -> Seq<u8>
    decreases evs.len() - i,
{
    if i < 0 || i >= evs.len() {
        acc
    } else {
        ser_events(evs, i + 1, acc + ser_event(evs[i]))
    }
}

/// The serialized markup of an event stream.
pub open spec fn spec_serialize(evs: Seq<EvView>) -> Seq<u8> {
    ser_events(evs, 0, Seq::empty())
}

/// Appends a byte string.
pub fn push_bytes(out: &mut Vec<u8>, s: &[u8])
    ensures
        final(out)@ == old(out)@ + s@,
{
    let mut i: usize = 0;
    while i < s.len()
        invariant
            0 <= i <= s@.len(),
            out@ == old(out)@ + s@.take(i as int),
        decreases s@.len() - i,
    {
        out.push(s[i]);
        assert(out@ =~= old(out)@ + s@.take(i + 1));
        i = i + 1;
    }
    assert(out@ =~= old(out)@ + s@);
}

fn value_has_dq(v: &[u8]) -> (r: bool)
    ensures
        r == contains_dq(v@),
{
    let mut i: usize = 0;
    while i < v.len()
        invariant
            0 <= i <= v@.len(),
            forall|k: int| 0 <= k < i ==> v@[k] != B_DQUOTE,
        decreases v@.len() - i,
    {
        if v[i] == B_DQUOTE {
            return true;
        }
        i = i + 1;
    }
    false
}

/// Appends one serialized attribute.
fn emit_attr(out: &mut Vec<u8>, a: &Attr)
    ensures
        final(out)@ == old(out)@ + ser_attr(a.deep_view()),
{
    let q = if value_has_dq(a.value.as_slice()) {
        B_SQUOTE
    } else {
        B_DQUOTE
    };
    out.push(B_SPACE);
    push_bytes(out, a.key.as_slice());
    out.push(B_EQ);
    out.push(q);
    push_bytes(out, a.value.as_slice());
    out.push(q);
    assert(out@ =~= old(out)@ + ser_attr(a.deep_view()));
}

/// Appends all attributes of an element.
fn emit_attrs(out: &mut Vec<u8>, attrs: &Vec<Attr>)
    ensures
        final(out)@ == old(out)@ + ser_attrs(view_attrs(attrs@), 0, Seq::empty()),
{
    let ghost va = view_attrs(attrs@);
    let ghost base = old(out)@.len() as int;
    let mut i: usize = 0;
    proof {
        assert(out@.skip(base) =~= Seq::<u8>::empty());
    }
    while i < attrs.len()
        invariant
            0 <= i <= attrs@.len(),
            va == view_attrs(attrs@),
            va.len() == attrs@.len(),
            base == old(out)@.len(),
            base <= out@.len(),
            out@.take(base) == old(out)@,
            ser_attrs(va, i as int, out@.skip(base)) == ser_attrs(va, 0, Seq::empty()),
        decreases attrs@.len() - i,
    {
        let ghost pre = out@;
        emit_attr(out, &attrs[i]);
        proof {
            assert(va[i as int] == attrs@[i as int].deep_view());
            assert(out@.take(base) =~= pre.take(base));
            assert(out@.skip(base) =~= pre.skip(base) + ser_attr(va[i as int]));
        }
        i = i + 1;
    }
    proof {
        assert(ser_attrs(va, i as int, out@.skip(base)) == out@.skip(base));
        assert(out@ =~= out@.take(base) + out@.skip(base));
    }
}

/// Appends one serialized event.
pub fn emit_event(out: &mut Vec<u8>, ev: &XmlEvent)
    ensures
        final(out)@ == old(out)@ + ser_event(ev.deep_view()),
{
    match ev {
        XmlEvent::Start { name, attrs } => {
            out.push(B_LT);
            push_bytes(out, name.as_slice());
            emit_attrs(out, attrs);
            out.push(B_GT);
            assert(out@ =~= old(out)@ + ser_event(ev.deep_view()));
        },
        XmlEvent::Empty { name, attrs } => {
            out.push(B_LT);
            push_bytes(out, name.as_slice());
            emit_attrs(out, attrs);
            out.push(B_SLASH);
            out.push(B_GT);
            assert(out@ =~= old(out)@ + ser_event(ev.deep_view()));
        },
        XmlEvent::End { name } => {
            out.push(B_LT);
            out.push(B_SLASH);
            push_bytes(out, name.as_slice());
            out.push(B_GT);
            assert(out@ =~= old(out)@ + ser_event(ev.deep_view()));
        },
        XmlEvent::Text { text } => {
            push_bytes(out, text.as_slice());
            assert(out@ =~= old(out)@ + ser_event(ev.deep_view()));
        },
        XmlEvent::CData { text } => {
            out.push(B_LT);
            out.push(B_BANG);
            out.push(B_LBRACK);
            out.push(67u8);
            out.push(68u8);
            out.push(65u8);
            out.push(84u8);
            out.push(65u8);
            out.push(B_LBRACK);
            push_bytes(out, text.as_slice());
            out.push(B_RBRACK);
            out.push(B_RBRACK);
            out.push(B_GT);
            assert(out@ =~= old(out)@ + ser_event(ev.deep_view()));
        },
        XmlEvent::Comment { text } => {
            out.push(B_LT);
            out.push(B_BANG);
            out.push(B_DASH);
            out.push(B_DASH);
            push_bytes(out, text.as_slice());
            out.push(B_DASH);
            out.push(B_DASH);
            out.push(B_GT);
            assert(out@ =~= old(out)@ + ser_event(ev.deep_view()));
        },
        XmlEvent::Pi { text } => {
            out.push(B_LT);
            out.push(B_QMARK);
            push_bytes(out, text.as_slice());
            out.push(B_QMARK);
            out.push(B_GT);
            assert(out@ =~= old(out)@ + ser_event(ev.deep_view()));
        },
        XmlEvent::DocType { text } => {
            out.push(B_LT);
            out.push(B_BANG);
            push_bytes(out, text.as_slice());
            out.push(B_GT);
            assert(out@ =~= old(out)@ + ser_event(ev.deep_view()));
        },
    }
}

/// Serializes an event stream to markup bytes.
pub fn serialize_events(events: &Vec<XmlEvent>) -> (out: Vec<u8>)
    ensures
        out@ == spec_serialize(view_events(events@)),
{
    let ghost evs = view_events(events@);
    let mut out: Vec<u8> = Vec::new();
    proof {
        assert(out@ =~= Seq::<u8>::empty());
    }
    let mut i: usize = 0;
    while i < events.len()
        invariant
            0 <= i <= events@.len(),
            evs == view_events(events@),
            evs.len() == events@.len(),
            ser_events(evs, i as int, out@) == spec_serialize(evs),
        decreases events@.len() - i,
    {
        let ghost prev = out@;
        assert(evs[i as int] == events@[i as int].deep_view());
        emit_event(&mut out, &events[i]);
        i = i + 1;
    }
    out
}

} // verus!
