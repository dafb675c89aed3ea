//! Tokenizer: reads worksheet markup bytes forward into events. Start
//! and self-closing tags carry parsed attributes; text, CDATA, comments,
//! processing instructions and document-type declarations are carried as
//! raw spans. Markup that cannot be tokenized yields an error.

use vstd::prelude::*;
use crate::{B_BANG, B_CR, B_DASH, B_DQUOTE, B_EQ, B_GT, B_LBRACK, B_LF, B_LT, B_QMARK,
    B_RBRACK, B_SLASH, B_SPACE, B_SQUOTE, B_TAB, XmlError};
use crate::xml::{Attr, AttrView, EvView, XmlEvent, clone_bytes, lemma_view_attrs_push,
    lemma_view_events_push, view_attrs, view_events};

verus! {

pub open spec fn is_ws(b: u8) -> bool {
    b == B_SPACE || b == B_TAB || b == B_CR || b == B_LF
}

/// First position of `t` at or after `i`, or the length when absent.
pub open spec fn find_byte(s: Seq<u8>, i: int, t: u8) -> int
    decreases s.len() - i,
{
    if i < 0 || i >= s.len() {
        s.len() as int
    } else if s[i] == t {
        i
    } else {
        find_byte(s, i + 1, t)
    }
}

/// First position where the two bytes `a b` occur, if any.
pub open spec fn find2(s: Seq<u8>, i: int, a: u8, b: u8) -> Option<int>
    decreases s.len() - i,
{
    if i < 0 || i + 2 > s.len() {
        Option::None
    } else if s[i] == a && s[i + 1] == b {
        Option::Some(i)
    } else {
        find2(s, i + 1, a, b)
    }
}

/// First position where the three bytes `a b c` occur, if any.
pub open spec fn find3(s: Seq<u8>, i: int, a: u8, b: u8, c: u8) -> Option<int>
    decreases s.len() - i,
{
    if i < 0 || i + 3 > s.len() {
        Option::None
    } else if s[i] == a && s[i + 1] == b && s[i + 2] == c {
        Option::Some(i)
    } else {
        find3(s, i + 1, a, b, c)
    }
}

/// Position of the `>` that closes a tag opened before `i`, skipping
/// quoted attribute values; `q` is the open quote, or zero outside one.
pub open spec fn tag_end(s: Seq<u8>, i: int, q: u8) -> Option<int>
    decreases s.len() - i,
{
    if i < 0 || i >= s.len() {
        Option::None
    } else if q != 0 {
        if s[i] == q {
            tag_end(s, i + 1, 0)
        } else {
            tag_end(s, i + 1, q)
        }
    } else if s[i] == B_GT {
        Option::Some(i)
    } else if s[i] == B_DQUOTE || s[i] == B_SQUOTE {
        tag_end(s, i + 1, s[i])
    } else {
        tag_end(s, i + 1, 0)
    }
}

/// First non-whitespace position at or after `i`, or the length.
pub open spec fn skip_ws(s: Seq<u8>, i: int) -> int
    decreases s.len() - i,
{
    if i < 0 || i >= s.len() {
        s.len() as int
    } else if is_ws(s[i]) {
        skip_ws(s, i + 1)
    } else {
        i
    }
}

/// End of an attribute key: the first `=` or whitespace, or the length.
pub open spec fn key_end(s: Seq<u8>, i: int) -> int
    decreases s.len() - i,
{
    if i < 0 || i >= s.len() {
        s.len() as int
    } else if s[i] == B_EQ || is_ws(s[i]) {
        i
    } else {
        key_end(s, i + 1)
    }
}

/// End of an element name: the first whitespace, or the length.
pub open spec fn name_end(s: Seq<u8>, i: int) -> int
    decreases s.len() - i,
{
    if i < 0 || i >= s.len() {
        s.len() as int
    } else if is_ws(s[i]) {
        i
    } else {
        name_end(s, i + 1)
    }
}

/// Parses the attributes of a tag's content from `i` on: whitespace,
/// then `key`, optional whitespace, `=`, optional whitespace, a quoted
/// value; `None` on anything else.
pub open spec fn parse_attrs(s: Seq<u8>, i: int, acc: Seq<AttrView>) -> Option<Seq<AttrView>>
    decreases s.len() - i,
{
    if i < 0 {
        Option::None
    } else if i >= s.len() {
        Option::Some(acc)
    } else if is_ws(s[i]) {
        parse_attrs(s, i + 1, acc)
    } else {
        let ke = key_end(s, i);
        if ke == i {
            Option::None
        } else {
            let j = skip_ws(s, ke);
            if j >= s.len() || s[j] != B_EQ {
                Option::None
            } else {
                let j2 = skip_ws(s, j + 1);
                if j2 >= s.len() || (s[j2] != B_DQUOTE && s[j2] != B_SQUOTE) {
                    Option::None
                } else {
                    let q = s[j2];
                    let m = find_byte(s, j2 + 1, q);
                    if m >= s.len() {
                        Option::None
                    } else {
                        let a = AttrView { key: s.subrange(i, ke), value: s.subrange(j2 + 1, m) };
                        let nx = if m + 1 > i { m + 1 } else { i + 1 };
                        parse_attrs(s, nx, acc.push(a))
                    }
                }
            }
        }
    }
}

/// Parses a tag's content (between `<` and `>`, the trailing `/` of a
/// self-closing form already removed) into its name and attributes.
pub open spec fn parse_tag(t: Seq<u8>) -> Option<(Seq<u8>, Seq<AttrView>)> {
    if t.len() == 0 {
        Option::None
    } else {
        let ne = name_end(t, 0);
        if ne == 0 {
            Option::None
        } else {
            match parse_attrs(t, ne, Seq::empty()) {
                Option::None => Option::None,
                Option::Some(attrs) => Option::Some((t.take(ne), attrs)),
            }
        }
    }
}

/// Reads one event at `i`: the event and the position after it, or
/// `None` when the markup there cannot be tokenized.
pub open spec fn next_ev(s: Seq<u8>, i: int) -> Option<(EvView, int)> {
    if i < 0 || i >= s.len() {
        Option::None
    } else if s[i] != B_LT {
        let j = find_byte(s, i + 1, B_LT);
        Option::Some((EvView::Text { text: s.subrange(i, j) }, j))
    } else if s.len() - i >= 4 && s[i + 1] == B_BANG && s[i + 2] == B_DASH
        && s[i + 3] == B_DASH {
        match find3(s, i + 4, B_DASH, B_DASH, B_GT) {
            Option::None => Option::None,
            Option::Some(m) => Option::Some((
                EvView::Comment { text: s.subrange(i + 4, m) },
                m + 3,
            )),
        }
    } else if s.len() - i >= 9 && s[i + 1] == B_BANG && s[i + 2] == B_LBRACK
        && s[i + 3] == 67 && s[i + 4] == 68 && s[i + 5] == 65 && s[i + 6] == 84
        && s[i + 7] == 65 && s[i + 8] == B_LBRACK {
        match find3(s, i + 9, B_RBRACK, B_RBRACK, B_GT) {
            Option::None => Option::None,
            Option::Some(m) => Option::Some((
                EvView::CData { text: s.subrange(i + 9, m) },
                m + 3,
            )),
        }
    } else if s.len() - i >= 2 && s[i + 1] == B_BANG {
        let m = find_byte(s, i + 2, B_GT);
        if m >= s.len() {
            Option::None
        } else {
            Option::Some((EvView::DocType { text: s.subrange(i + 2, m) }, m + 1))
        }
    } else if s.len() - i >= 2 && s[i + 1] == B_QMARK {
        match find2(s, i + 2, B_QMARK, B_GT) {
            Option::None => Option::None,
            Option::Some(m) => Option::Some((EvView::Pi { text: s.subrange(i + 2, m) }, m + 2)),
        }
    } else if s.len() - i >= 2 && s[i + 1] == B_SLASH {
        let m = find_byte(s, i + 2, B_GT);
        if m >= s.len() {
            Option::None
        } else {
            Option::Some((EvView::End { name: s.subrange(i + 2, m) }, m + 1))
        }
    } else {
        match tag_end(s, i + 1, 0) {
            Option::None => Option::None,
            Option::Some(m) => {
                let content = s.subrange(i + 1, m);
                if content.len() == 0 {
                    Option::None
                } else if content.last() == B_SLASH {
                    match parse_tag(content.drop_last()) {
                        Option::None => Option::None,
                        Option::Some(na) => Option::Some((
                            EvView::Empty { name: na.0, attrs: na.1 },
                            m + 1,
                        )),
                    }
                } else {
                    match parse_tag(content) {
                        Option::None => Option::None,
                        Option::Some(na) => Option::Some((
                            EvView::Start { name: na.0, attrs: na.1 },
                            m + 1,
                        )),
                    }
                }
            },
        }
    }
}

/// The whole stream tokenized from `i` on, or `None` where it cannot be.
pub open spec fn tok_run(s: Seq<u8>, i: int, acc: Seq<EvView>) -> Option<Seq<EvView>>
    decreases s.len() - i,
{
    if i < 0 {
        Option::None
    } else if i >= s.len() {
        Option::Some(acc)
    } else {
        match next_ev(s, i) {
            Option::None => Option::None,
            Option::Some(ej) => {
                let j1 = if ej.1 > i {
                    ej.1
                } else {
                    i + 1
                };
                let j2 = if j1 > s.len() {
                    s.len() as int
                } else {
                    j1
                };
                tok_run(s, j2, acc.push(ej.0))
            },
        }
    }
}

/// What a markup byte stream tokenizes to, if it tokenizes at all.
pub open spec fn spec_tokenize(s: Seq<u8>) -> Option<Seq<EvView>> {
    tok_run(s, 0, Seq::empty())
}

fn is_ws_b(b: u8) -> (r: bool)
    ensures
        r == is_ws(b),
{
    b == B_SPACE || b == B_TAB || b == B_CR || b == B_LF
}

fn find_byte_x(s: &[u8], i: usize, t: u8) -> (r: usize)
    requires
        i <= s@.len(),
    ensures
        r as int == find_byte(s@, i as int, t),
        i <= r <= s@.len(),
{
    let mut j: usize = i;
    while j < s.len()
        invariant
            i <= j <= s@.len(),
            find_byte(s@, i as int, t) == find_byte(s@, j as int, t),
        decreases s@.len() - j,
    {
        if s[j] == t {
            return j;
        }
        j = j + 1;
    }
    j
}

fn find2_x(s: &[u8], i: usize, a: u8, b: u8) -> (r: Option<usize>)
    requires
        i <= s@.len(),
    ensures
        match r {
            Option::Some(m) => find2(s@, i as int, a, b) == Option::Some(m as int)
                && i <= m && m + 2 <= s@.len(),
            Option::None => find2(s@, i as int, a, b) == Option::None::<int>,
        },
{
    let mut j: usize = i;
    while s.len() - j >= 2
        invariant
            i <= j,
            j <= s@.len(),
            find2(s@, i as int, a, b) == find2(s@, j as int, a, b),
        decreases s@.len() - j,
    {
        if s[j] == a && s[j + 1] == b {
            return Option::Some(j);
        }
        j = j + 1;
    }
    Option::None
}

fn find3_x(s: &[u8], i: usize, a: u8, b: u8, c: u8) -> (r: Option<usize>)
    requires
        i <= s@.len(),
    ensures
        match r {
            Option::Some(m) => find3(s@, i as int, a, b, c) == Option::Some(m as int)
                && i <= m && m + 3 <= s@.len(),
            Option::None => find3(s@, i as int, a, b, c) == Option::None::<int>,
        },
{
    let mut j: usize = i;
    while s.len() - j >= 3
        invariant
            i <= j,
            j <= s@.len(),
            find3(s@, i as int, a, b, c) == find3(s@, j as int, a, b, c),
        decreases s@.len() - j,
    {
        if s[j] == a && s[j + 1] == b && s[j + 2] == c {
            return Option::Some(j);
        }
        j = j + 1;
    }
    Option::None
}

fn tag_end_x(s: &[u8], i: usize) -> (r: Option<usize>)
    requires
        i <= s@.len(),
    ensures
        match r {
            Option::Some(m) => tag_end(s@, i as int, 0) == Option::Some(m as int)
                && i <= m && m < s@.len(),
            Option::None => tag_end(s@, i as int, 0) == Option::None::<int>,
        },
{
    let mut j: usize = i;
    let mut q: u8 = 0;
    while j < s.len()
        invariant
            i <= j <= s@.len(),
            tag_end(s@, i as int, 0) == tag_end(s@, j as int, q),
        decreases s@.len() - j,
    {
        let b = s[j];
        if q != 0 {
            if b == q {
                q = 0;
            }
        } else if b == B_GT {
            return Option::Some(j);
        } else if b == B_DQUOTE || b == B_SQUOTE {
            q = b;
        }
        j = j + 1;
    }
    Option::None
}

fn skip_ws_x(s: &[u8], i: usize) -> (r: usize)
    requires
        i <= s@.len(),
    ensures
        r as int == skip_ws(s@, i as int),
        i <= r <= s@.len(),
{
    let mut j: usize = i;
    while j < s.len()
        invariant
            i <= j <= s@.len(),
            skip_ws(s@, i as int) == skip_ws(s@, j as int),
        decreases s@.len() - j,
    {
        if !is_ws_b(s[j]) {
            return j;
        }
        j = j + 1;
    }
    j
}

fn key_end_x(s: &[u8], i: usize) -> (r: usize)
    requires
        i <= s@.len(),
    ensures
        r as int == key_end(s@, i as int),
        i <= r <= s@.len(),
{
    let mut j: usize = i;
    while j < s.len()
        invariant
            i <= j <= s@.len(),
            key_end(s@, i as int) == key_end(s@, j as int),
        decreases s@.len() - j,
    {
        if s[j] == B_EQ || is_ws_b(s[j]) {
            return j;
        }
        j = j + 1;
    }
    j
}

fn name_end_x(s: &[u8], i: usize) -> (r: usize)
    requires
        i <= s@.len(),
    ensures
        r as int == name_end(s@, i as int),
        i <= r <= s@.len(),
{
    let mut j: usize = i;
    while j < s.len()
        invariant
            i <= j <= s@.len(),
            name_end(s@, i as int) == name_end(s@, j as int),
        decreases s@.len() - j,
    {
        if is_ws_b(s[j]) {
            return j;
        }
        j = j + 1;
    }
    j
}

fn parse_attrs_x(t: &[u8], start: usize) -> (r: Option<Vec<Attr>>)
    requires
        start <= t@.len(),
    ensures
        match r {
            Option::Some(attrs) => parse_attrs(t@, start as int, Seq::empty())
                == Option::Some(view_attrs(attrs@)),
            Option::None => parse_attrs(t@, start as int, Seq::empty())
                == Option::None::<Seq<AttrView>>,
        },
{
    let mut out: Vec<Attr> = Vec::new();
    proof {
        assert(view_attrs(out@) =~= Seq::<AttrView>::empty());
    }
    let mut i: usize = start;
    while i < t.len()
        invariant
            start <= i <= t@.len(),
            parse_attrs(t@, start as int, Seq::empty())
                == parse_attrs(t@, i as int, view_attrs(out@)),
        decreases t@.len() - i,
    {
        if is_ws_b(t[i]) {
            i = i + 1;
            continue;
        }
        let ke = key_end_x(t, i);
        if ke == i {
            return Option::None;
        }
        let j = skip_ws_x(t, ke);
        if j >= t.len() {
            return Option::None;
        }
        if t[j] != B_EQ {
            return Option::None;
        }
        let j2 = skip_ws_x(t, j + 1);
        if j2 >= t.len() {
            return Option::None;
        }
        let q = t[j2];
        if q != B_DQUOTE && q != B_SQUOTE {
            return Option::None;
        }
        let m = find_byte_x(t, j2 + 1, q);
        if m >= t.len() {
            return Option::None;
        }
        let key = clone_bytes(vstd::slice::slice_subrange(t, i, ke));
        let value = clone_bytes(vstd::slice::slice_subrange(t, j2 + 1, m));
        let a = Attr { key, value };
        proof {
            lemma_view_attrs_push(out@, a);
        }
        out.push(a);
        let nx = if m + 1 > i {
            m + 1
        } else {
            i + 1
        };
        i = nx;
    }
    Option::Some(out)
}

fn parse_tag_x(t: &[u8]) -> (r: Option<(Vec<u8>, Vec<Attr>)>)
    ensures
        match r {
            Option::Some(na) => parse_tag(t@) == Option::Some((na.0@, view_attrs(na.1@))),
            Option::None => parse_tag(t@) == Option::None::<(Seq<u8>, Seq<AttrView>)>,
        },
{
    if t.len() == 0 {
        return Option::None;
    }
    let ne = name_end_x(t, 0);
    if ne == 0 {
        return Option::None;
    }
    let name = clone_bytes(vstd::slice::slice_subrange(t, 0, ne));
    assert(name@ =~= t@.take(ne as int));
    match parse_attrs_x(t, ne) {
        Option::Some(attrs) => Option::Some((name, attrs)),
        Option::None => Option::None,
    }
}

/// Reads one event at `i`.
fn next_event(s: &[u8], i: usize) -> (r: Option<(XmlEvent, usize)>)
    requires
        i < s@.len(),
    ensures
        match r {
            Option::Some(ej) => next_ev(s@, i as int)
                == Option::Some((ej.0.deep_view(), ej.1 as int)),
            Option::None => next_ev(s@, i as int) == Option::None::<(EvView, int)>,
        },
{
    let n = s.len();
    if s[i] != B_LT {
        let j = find_byte_x(s, i + 1, B_LT);
        let text = clone_bytes(vstd::slice::slice_subrange(s, i, j));
        return Option::Some((XmlEvent::Text { text }, j));
    }
    if n - i >= 4 && s[i + 1] == B_BANG && s[i + 2] == B_DASH && s[i + 3] == B_DASH {
        return match find3_x(s, i + 4, B_DASH, B_DASH, B_GT) {
            Option::Some(m) => {
                let text = clone_bytes(vstd::slice::slice_subrange(s, i + 4, m));
                Option::Some((XmlEvent::Comment { text }, m + 3))
            },
            Option::None => Option::None,
        };
    }
    if n - i >= 9 && s[i + 1] == B_BANG && s[i + 2] == B_LBRACK && s[i + 3] == 67
        && s[i + 4] == 68 && s[i + 5] == 65 && s[i + 6] == 84 && s[i + 7] == 65
        && s[i + 8] == B_LBRACK {
        return match find3_x(s, i + 9, B_RBRACK, B_RBRACK, B_GT) {
            Option::Some(m) => {
                let text = clone_bytes(vstd::slice::slice_subrange(s, i + 9, m));
                Option::Some((XmlEvent::CData { text }, m + 3))
            },
            Option::None => Option::None,
        };
    }
    if n - i >= 2 && s[i + 1] == B_BANG {
        let m = find_byte_x(s, i + 2, B_GT);
        if m >= n {
            return Option::None;
        }
        let text = clone_bytes(vstd::slice::slice_subrange(s, i + 2, m));
        return Option::Some((XmlEvent::DocType { text }, m + 1));
    }
    if n - i >= 2 && s[i + 1] == B_QMARK {
        return match find2_x(s, i + 2, B_QMARK, B_GT) {
            Option::Some(m) => {
                let text = clone_bytes(vstd::slice::slice_subrange(s, i + 2, m));
                Option::Some((XmlEvent::Pi { text }, m + 2))
            },
            Option::None => Option::None,
        };
    }
    if n - i >= 2 && s[i + 1] == B_SLASH {
        let m = find_byte_x(s, i + 2, B_GT);
        if m >= n {
            return Option::None;
        }
        let name = clone_bytes(vstd::slice::slice_subrange(s, i + 2, m));
        return Option::Some((XmlEvent::End { name }, m + 1));
    }
    match tag_end_x(s, i + 1) {
        Option::None => Option::None,
        Option::Some(m) => {
            let content = vstd::slice::slice_subrange(s, i + 1, m);
            assert(content@ == s@.subrange(i + 1, m as int));
            if content.len() == 0 {
                return Option::None;
            }
            if content[content.len() - 1] == B_SLASH {
                let body = vstd::slice::slice_subrange(content, 0, content.len() - 1);
                assert(body@ =~= s@.subrange(i + 1, m as int).drop_last());
                match parse_tag_x(body) {
                    Option::Some(na) => Option::Some((
                        XmlEvent::Empty { name: na.0, attrs: na.1 },
                        m + 1,
                    )),
                    Option::None => Option::None,
                }
            } else {
                match parse_tag_x(content) {
                    Option::Some(na) => Option::Some((
                        XmlEvent::Start { name: na.0, attrs: na.1 },
                        m + 1,
                    )),
                    Option::None => Option::None,
                }
            }
        },
    }
}

/// Tokenizes a worksheet's markup bytes into events; an error exactly
/// when the markup cannot be tokenized.
pub fn tokenize(s: &[u8]) -> (r: Result<Vec<XmlEvent>, XmlError>)
    ensures
        match r {
            Result::Ok(evs) => spec_tokenize(s@) == Option::Some(view_events(evs@)),
            Result::Err(e) => spec_tokenize(s@) == Option::None::<Seq<EvView>>
                && e == XmlError::Malformed,
        },
{
    let mut out: Vec<XmlEvent> = Vec::new();
    proof {
        assert(view_events(out@) =~= Seq::<EvView>::empty());
    }
    let mut i: usize = 0;
    while i < s.len()
        invariant
            0 <= i <= s@.len(),
            tok_run(s@, i as int, view_events(out@)) == spec_tokenize(s@),
        decreases s@.len() - i,
    {
        match next_event(s, i) {
            Option::None => {
                return Result::Err(XmlError::Malformed);
            },
            Option::Some(ej) => {
                let (ev, j) = ej;
                proof {
                    lemma_view_events_push(out@, ev);
                }
                out.push(ev);
                let j1 = if j > i {
                    j
                } else {
                    i + 1
                };
                let j2 = if j1 > s.len() {
                    s.len()
                } else {
                    j1
                };
                i = j2;
            },
        }
    }
    Result::Ok(out)
}

} // verus!
