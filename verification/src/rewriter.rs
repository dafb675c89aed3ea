//! Worksheet rewriter: a second forward pass that re-emits the event
//! stream with rows and cells beyond the used range dropped, the declared
//! dimension corrected, merge regions filtered and re-numbered, bulk
//! metadata blocks elided, and comments removed.

use vstd::prelude::*;
use crate::{B_COLON, UsedRange};
use crate::codec::{
    decode_address, encode_column, format_u64, parse_row_number,
    spec_dec, spec_decode_addr, spec_encode_col, spec_parse_u32,
};
use crate::scanner::cell_addr;
use crate::xml::{
    Attr, AttrView, EvView, TagKind, XmlEvent, attr_lookup, clone_attr, clone_bytes,
    clone_event, find_attr, kind_of, lit_attr_count, lit_attr_r, lit_attr_ref,
    lit_merge_cell, lit_merge_cells, local_of, n_attr_count, n_attr_r, n_attr_ref,
    n_merge_cell, n_merge_cells, spec_kind, view_attrs, view_events,
    lemma_view_attrs_push, lemma_view_events_push,
};

verus! {

/// One merge region: the decoded corners of an `A1:B2`-style range.
#[derive(Clone, Copy, Debug, PartialEq, Eq, Structural)]
pub struct Region {
    pub c1: u32,
    pub r1: u32,
    pub c2: u32,
    pub r2: u32,
}

/// The corrected dimension range text: `A1:<letters><digits>`, or
/// `A1:A1` when either bound is zero.
pub open spec fn dim_ref(used: UsedRange) -> Seq<u8> {
    if used.last_row == 0 || used.last_col == 0 {
        seq![65u8, 49u8, 58u8, 65u8, 49u8]
    } else {
        seq![65u8, 49u8, 58u8] + spec_encode_col(used.last_col as int)
            + spec_dec(used.last_row as int)
    }
}

/// The attributes of a dimension element after rewrite: every attribute
/// but `ref` kept in order, then the corrected `ref` appended.
pub open spec fn non_ref(attrs: Seq<AttrView>, i: int, acc: Seq<AttrView>) -> Seq<AttrView>
    decreases attrs.len() - i,
{
    if i < 0 || i >= attrs.len() {
        acc
    } else if attrs[i].key == n_attr_ref() {
        non_ref(attrs, i + 1, acc)
    } else {
        non_ref(attrs, i + 1, acc.push(attrs[i]))
    }
}

pub open spec fn dim_attrs(attrs: Seq<AttrView>, used: UsedRange) -> Seq<AttrView> {
    non_ref(attrs, 0, Seq::empty()).push(
        AttrView { key: n_attr_ref(), value: dim_ref(used) },
    )
}

/// The row index a row element declares, decoded.
pub open spec fn row_index(attrs: Seq<AttrView>) -> Option<u32> {
    match attr_lookup(attrs, n_attr_r()) {
        Option::Some(v) => spec_parse_u32(v),
        Option::None => Option::None,
    }
}

/// A row is dropped when its declared index decodes and exceeds a
/// nonzero row bound.
pub open spec fn spec_drop_row(attrs: Seq<AttrView>, used: UsedRange) -> bool {
    match row_index(attrs) {
        Option::Some(r) => used.last_row > 0 && r > used.last_row,
        Option::None => false,
    }
}

/// A cell is dropped when its address decodes and its column exceeds a
/// nonzero column bound.
pub open spec fn spec_drop_cell(attrs: Seq<AttrView>, used: UsedRange) -> bool {
    match cell_addr(attrs) {
        Option::Some(cr) => used.last_col > 0 && cr.0 > used.last_col,
        Option::None => false,
    }
}

/// Index of the first colon of `s` at or after `i`.
pub open spec fn first_colon_at(s: Seq<u8>, i: int) -> Option<int>
    decreases s.len() - i,
{
    if i < 0 || i >= s.len() {
        Option::None
    } else if s[i] == B_COLON {
        Option::Some(i)
    } else {
        first_colon_at(s, i + 1)
    }
}

/// What an `A1:B2`-style range text decodes to: split at the first
/// colon, both halves decoded as cell addresses.
pub open spec fn spec_parse_region(s: Seq<u8>) -> Option<Region> {
    match first_colon_at(s, 0) {
        Option::None => Option::None,
        Option::Some(p) => match spec_decode_addr(s.take(p)) {
            Option::None => Option::None,
            Option::Some(a) => match spec_decode_addr(s.skip(p + 1)) {
                Option::None => Option::None,
                Option::Some(b) => Option::Some(
                    Region { c1: a.0, r1: a.1, c2: b.0, r2: b.1 },
                ),
            },
        },
    }
}

/// A region is retained iff every corner coordinate is at least 1 and
/// both corners lie within each nonzero bound.
pub open spec fn spec_keep_region(reg: Region, used: UsedRange) -> bool {
    reg.c1 >= 1 && reg.c2 >= 1 && reg.r1 >= 1 && reg.r2 >= 1
        && (used.last_col == 0 || (reg.c1 <= used.last_col && reg.c2 <= used.last_col))
        && (used.last_row == 0 || (reg.r1 <= used.last_row && reg.r2 <= used.last_row))
}

/// The range text a retained region is re-emitted with.
pub open spec fn region_ref(reg: Region) -> Seq<u8> {
    spec_encode_col(reg.c1 as int) + spec_dec(reg.r1 as int) + seq![B_COLON]
        + spec_encode_col(reg.c2 as int) + spec_dec(reg.r2 as int)
}

/// One re-emitted merge region element.
pub open spec fn merge_item(reg: Region) -> EvView {
    EvView::Empty {
        name: n_merge_cell(),
        attrs: seq![AttrView { key: n_attr_ref(), value: region_ref(reg) }],
    }
}

/// The events a finished merge container is replaced with: nothing when
/// no region survives, else a container with a corrected count and one
/// element per retained region.
pub open spec fn merge_out(kept: Seq<Region>) -> Seq<EvView> {
    if kept.len() == 0 {
        Seq::empty()
    } else {
        seq![
            EvView::Start {
                name: n_merge_cells(),
                attrs: seq![
                    AttrView { key: n_attr_count(), value: spec_dec(kept.len() as int) },
                ],
            },
        ] + Seq::new(kept.len(), |i: int| merge_item(kept[i]))
            + seq![EvView::End { name: n_merge_cells() }]
    }
}

/// What a merge-region declaration adds to the retained list.
pub open spec fn record_region(
    kept: Seq<Region>,
    attrs: Seq<AttrView>,
    used: UsedRange,
) -> Seq<Region> {
    match attr_lookup(attrs, n_attr_ref()) {
        Option::Some(v) => match spec_parse_region(v) {
            Option::Some(reg) => if spec_keep_region(reg, used) {
                kept.push(reg)
            } else {
                kept
            },
            Option::None => kept,
        },
        Option::None => kept,
    }
}

/// Where the rewrite stands: passing events through, discarding a
/// dropped subtree, buffering a merge container, or discarding a subtree
/// nested inside one.
pub enum RwStV {
    Pass,
    Skip { depth: usize },
    Merge { kept: Seq<Region> },
    MergeSkip { kept: Seq<Region>, depth: usize },
}

/// One rewrite step while passing events through.
pub open spec fn step_pass(ev: EvView, used: UsedRange) -> (RwStV, Seq<EvView>) {
    match ev {
        EvView::Start { name, attrs } => {
            let k = spec_kind(local_of(name));
            if k == TagKind::Dimension {
                (
                    RwStV::Pass,
                    seq![EvView::Start { name, attrs: dim_attrs(attrs, used) }],
                )
            } else if k == TagKind::Row {
                if spec_drop_row(attrs, used) {
                    (RwStV::Skip { depth: 1 }, Seq::empty())
                } else {
                    (RwStV::Pass, seq![ev])
                }
            } else if k == TagKind::Cell {
                if spec_drop_cell(attrs, used) {
                    (RwStV::Skip { depth: 1 }, Seq::empty())
                } else {
                    (RwStV::Pass, seq![ev])
                }
            } else if k == TagKind::MergeCells {
                (RwStV::Merge { kept: Seq::empty() }, Seq::empty())
            } else if k == TagKind::Bulk {
                (RwStV::Skip { depth: 1 }, Seq::empty())
            } else {
                (RwStV::Pass, seq![ev])
            }
        },
        EvView::Empty { name, attrs } => {
            let k = spec_kind(local_of(name));
            if k == TagKind::Dimension {
                (
                    RwStV::Pass,
                    seq![EvView::Empty { name, attrs: dim_attrs(attrs, used) }],
                )
            } else if k == TagKind::Row {
                if spec_drop_row(attrs, used) {
                    (RwStV::Pass, Seq::empty())
                } else {
                    (RwStV::Pass, seq![ev])
                }
            } else if k == TagKind::Cell {
                if spec_drop_cell(attrs, used) {
                    (RwStV::Pass, Seq::empty())
                } else {
                    (RwStV::Pass, seq![ev])
                }
            } else if k == TagKind::Bulk {
                (RwStV::Pass, Seq::empty())
            } else {
                (RwStV::Pass, seq![ev])
            }
        },
        EvView::End { name } => (RwStV::Pass, seq![ev]),
        EvView::Text { text } => (RwStV::Pass, seq![ev]),
        EvView::CData { text } => (RwStV::Pass, seq![ev]),
        EvView::Pi { text } => (RwStV::Pass, seq![ev]),
        EvView::Comment { text } => (RwStV::Pass, Seq::empty()),
        EvView::DocType { text } => (RwStV::Pass, Seq::empty()),
    }
}

/// One rewrite step while discarding a dropped subtree.
pub open spec fn step_skip(depth: usize, ev: EvView) -> RwStV {
    match ev {
        EvView::Start { name, attrs } => RwStV::Skip { depth: (depth + 1) as usize },
        EvView::End { name } => if depth == 1 {
            RwStV::Pass
        } else {
            RwStV::Skip { depth: (depth - 1) as usize }
        },
        _ => RwStV::Skip { depth },
    }
}

/// One rewrite step while buffering a merge container.
pub open spec fn step_merge(
    kept: Seq<Region>,
    ev: EvView,
    used: UsedRange,
) -> (RwStV, Seq<EvView>) {
    match ev {
        EvView::Empty { name, attrs } => {
            if spec_kind(local_of(name)) == TagKind::MergeCell {
                (RwStV::Merge { kept: record_region(kept, attrs, used) }, Seq::empty())
            } else {
                (RwStV::Merge { kept }, Seq::empty())
            }
        },
        EvView::Start { name, attrs } => {
            if spec_kind(local_of(name)) == TagKind::MergeCell {
                (
                    RwStV::MergeSkip { kept: record_region(kept, attrs, used), depth: 1 },
                    Seq::empty(),
                )
            } else {
                (RwStV::MergeSkip { kept, depth: 1 }, Seq::empty())
            }
        },
        EvView::End { name } => {
            if spec_kind(local_of(name)) == TagKind::MergeCells {
                (RwStV::Pass, merge_out(kept))
            } else {
                (RwStV::Merge { kept }, Seq::empty())
            }
        },
        _ => (RwStV::Merge { kept }, Seq::empty()),
    }
}

/// One rewrite step while discarding a subtree inside a merge container.
pub open spec fn step_merge_skip(kept: Seq<Region>, depth: usize, ev: EvView) -> RwStV {
    match ev {
        EvView::Start { name, attrs } => RwStV::MergeSkip {
            kept,
            depth: (depth + 1) as usize,
        },
        EvView::End { name } => if depth == 1 {
            RwStV::Merge { kept }
        } else {
            RwStV::MergeSkip { kept, depth: (depth - 1) as usize }
        },
        _ => RwStV::MergeSkip { kept, depth },
    }
}

/// One rewrite step.
pub open spec fn rw_step(st: RwStV, ev: EvView, used: UsedRange) -> (RwStV, Seq<EvView>) {
    match st {
        RwStV::Pass => step_pass(ev, used),
        RwStV::Skip { depth } => (step_skip(depth, ev), Seq::empty()),
        RwStV::Merge { kept } => step_merge(kept, ev, used),
        RwStV::MergeSkip { kept, depth } => (step_merge_skip(kept, depth, ev), Seq::empty()),
    }
}

/// What a truncated stream still emits: a merge container cut off by the
/// end of input is closed out with what it retained.
pub open spec fn rw_fin(st: RwStV) -> Seq<EvView> {
    match st {
        RwStV::Pass => Seq::empty(),
        RwStV::Skip { depth } => Seq::empty(),
        RwStV::Merge { kept } => merge_out(kept),
        RwStV::MergeSkip { kept, depth } => merge_out(kept),
    }
}

/// The rewrite as a fold from position `i`.
pub open spec fn rw_run(
    evs: Seq<EvView>,
    i: int,
    st: RwStV,
    out: Seq<EvView>,
    used: UsedRange,
) -> Seq<EvView>
    decreases evs.len() - i,
{
    if i < 0 || i >= evs.len() {
        out + rw_fin(st)
    } else {
        let se = rw_step(st, evs[i], used);
        rw_run(evs, i + 1, se.0, out + se.1, used)
    }
}

/// The rewritten event stream of a worksheet.
pub open spec fn spec_rewrite(evs: Seq<EvView>, used: UsedRange) -> Seq<EvView> {
    rw_run(evs, 0, RwStV::Pass, Seq::empty(), used)
}

/// Builds the corrected dimension range text.
pub fn dim_ref_bytes(used: UsedRange) -> (r: Vec<u8>)
    ensures
        r@ == dim_ref(used),
{
    if used.last_row == 0 || used.last_col == 0 {
        let v: Vec<u8> = vec![65u8, 49u8, 58u8, 65u8, 49u8];
        assert(v@ =~= dim_ref(used));
        v
    } else {
        let mut v: Vec<u8> = vec![65u8, 49u8, 58u8];
        let mut letters = encode_column(used.last_col);
        let mut digits = format_u64(used.last_row as u64);
        v.append(&mut letters);
        v.append(&mut digits);
        assert(v@ =~= dim_ref(used));
        v
    }
}

/// Builds the rewritten attribute list of a dimension element.
pub fn dim_attrs_build(attrs: &Vec<Attr>, used: UsedRange) -> (r: Vec<Attr>)
    ensures
        view_attrs(r@) == dim_attrs(view_attrs(attrs@), used),
{
    let ghost va = view_attrs(attrs@);
    let key = lit_attr_ref();
    let mut out: Vec<Attr> = Vec::new();
    proof {
        assert(view_attrs(out@) =~= Seq::<AttrView>::empty());
    }
    let mut i: usize = 0;
    while i < attrs.len()
        invariant
            0 <= i <= attrs@.len(),
            va == view_attrs(attrs@),
            va.len() == attrs@.len(),
            key@ == n_attr_ref(),
            non_ref(va, 0, Seq::empty()) == non_ref(va, i as int, view_attrs(out@)),
        decreases attrs@.len() - i,
    {
        if !crate::xml::bytes_eq(attrs[i].key.as_slice(), key.as_slice()) {
            let a = clone_attr(&attrs[i]);
            proof {
                lemma_view_attrs_push(out@, a);
                assert(va[i as int] == attrs@[i as int].deep_view());
            }
            out.push(a);
        }
        i = i + 1;
    }
    let value = dim_ref_bytes(used);
    let a = Attr { key, value };
    proof {
        lemma_view_attrs_push(out@, a);
    }
    out.push(a);
    out
}

/// Parses an `A1:B2`-style range text.
pub fn parse_region(s: &[u8]) -> (r: Option<Region>)
    ensures
        r == spec_parse_region(s@),
{
    let mut p: usize = 0;
    while p < s.len() && s[p] != B_COLON
        invariant
            0 <= p <= s@.len(),
            first_colon_at(s@, 0) == first_colon_at(s@, p as int),
        decreases s@.len() - p,
    {
        p = p + 1;
    }
    if p == s.len() {
        return Option::None;
    }
    let head = vstd::slice::slice_subrange(s, 0, p);
    assert(head@ =~= s@.take(p as int));
    let a = match decode_address(head) {
        Option::Some(a) => a,
        Option::None => {
            return Option::None;
        },
    };
    let tail = vstd::slice::slice_subrange(s, p + 1, s.len());
    assert(tail@ =~= s@.skip(p + 1));
    let b = match decode_address(tail) {
        Option::Some(b) => b,
        Option::None => {
            return Option::None;
        },
    };
    Option::Some(Region { c1: a.0, r1: a.1, c2: b.0, r2: b.1 })
}

/// Tests a region against the bounds.
pub fn keep_region(reg: Region, used: UsedRange) -> (r: bool)
    ensures
        r == spec_keep_region(reg, used),
{
    reg.c1 >= 1 && reg.c2 >= 1 && reg.r1 >= 1 && reg.r2 >= 1
        && (used.last_col == 0 || (reg.c1 <= used.last_col && reg.c2 <= used.last_col))
        && (used.last_row == 0 || (reg.r1 <= used.last_row && reg.r2 <= used.last_row))
}

/// Builds the range text of a retained region.
pub fn region_ref_bytes(reg: Region) -> (r: Vec<u8>)
    requires
        reg.c1 >= 1,
        reg.c2 >= 1,
    ensures
        r@ == region_ref(reg),
{
    let mut v = encode_column(reg.c1);
    let mut d1 = format_u64(reg.r1 as u64);
    v.append(&mut d1);
    v.push(B_COLON);
    let mut l2 = encode_column(reg.c2);
    let mut d2 = format_u64(reg.r2 as u64);
    v.append(&mut l2);
    v.append(&mut d2);
    assert(v@ =~= region_ref(reg));
    v
}

/// Appends the re-emitted merge container for the retained regions.
fn emit_merge(out: &mut Vec<XmlEvent>, kept: &Vec<Region>)
    requires
        forall|k: int| 0 <= k < kept@.len()
            ==> (#[trigger] kept@[k]).c1 >= 1 && kept@[k].c2 >= 1,
    ensures
        view_events(final(out)@) == view_events(old(out)@) + merge_out(kept@),
{
    if kept.len() == 0 {
        assert(view_events(out@) =~= view_events(out@) + merge_out(kept@));
        return ;
    }
    let ghost base = view_events(out@);
    let count = format_u64(kept.len() as u64);
    let mut cattrs: Vec<Attr> = Vec::new();
    cattrs.push(Attr { key: lit_attr_count(), value: count });
    let head = XmlEvent::Start { name: lit_merge_cells(), attrs: cattrs };
    proof {
        lemma_view_events_push(out@, head);
        assert(view_attrs(head->Start_attrs@) =~= seq![
            AttrView { key: n_attr_count(), value: spec_dec(kept@.len() as int) },
        ]);
    }
    out.push(head);
    let ghost after_head = view_events(out@);
    let mut j: usize = 0;
    while j < kept.len()
        invariant
            0 <= j <= kept@.len(),
            forall|k: int| 0 <= k < kept@.len()
                ==> (#[trigger] kept@[k]).c1 >= 1 && kept@[k].c2 >= 1,
            after_head.len() == base.len() + 1,
            view_events(out@) == after_head + Seq::new(j as nat, |i: int| merge_item(kept@[i])),
        decreases kept@.len() - j,
    {
        let reg = kept[j];
        let rv = region_ref_bytes(reg);
        let mut mattrs: Vec<Attr> = Vec::new();
        mattrs.push(Attr { key: lit_attr_ref(), value: rv });
        let item = XmlEvent::Empty { name: lit_merge_cell(), attrs: mattrs };
        proof {
            lemma_view_events_push(out@, item);
            assert(view_attrs(item->Empty_attrs@) =~= seq![
                AttrView { key: n_attr_ref(), value: region_ref(reg) },
            ]);
            assert(item.deep_view() == merge_item(kept@[j as int]));
        }
        out.push(item);
        assert(view_events(out@) =~= after_head + Seq::new((j + 1) as nat, |i: int| merge_item(kept@[i])));
        j = j + 1;
    }
    let tail = XmlEvent::End { name: lit_merge_cells() };
    proof {
        lemma_view_events_push(out@, tail);
    }
    out.push(tail);
    assert(view_events(out@) =~= base + merge_out(kept@));
}

/// Exec tag for the rewrite state; the retained regions and the skip
/// depth live beside it.
#[derive(Clone, Copy, Debug, PartialEq, Eq, Structural)]
enum RwMode {
    Pass,
    Skip,
    Merge,
    MergeSkip,
}

spec fn mk_st(mode: RwMode, depth: usize, kept: Seq<Region>) -> RwStV {
    match mode {
        RwMode::Pass => RwStV::Pass,
        RwMode::Skip => RwStV::Skip { depth },
        RwMode::Merge => RwStV::Merge { kept },
        RwMode::MergeSkip => RwStV::MergeSkip { kept, depth },
    }
}

/// Re-emits one worksheet's event stream clamped to the used range.
pub fn rewrite_events(events: &Vec<XmlEvent>, used: UsedRange) -> (out: Vec<XmlEvent>)
    ensures
        view_events(out@) == spec_rewrite(view_events(events@), used),
{
    let ghost evs = view_events(events@);
    let mut out: Vec<XmlEvent> = Vec::new();
    let mut mode = RwMode::Pass;
    let mut depth: usize = 0;
    let mut kept: Vec<Region> = Vec::new();
    proof {
        assert(view_events(out@) =~= Seq::<EvView>::empty());
    }
    let mut i: usize = 0;
    while i < events.len()
        invariant
            0 <= i <= events@.len(),
            evs == view_events(events@),
            evs.len() == events@.len(),
            rw_run(evs, i as int, mk_st(mode, depth, kept@), view_events(out@), used)
                == spec_rewrite(evs, used),
            (mode == RwMode::Skip || mode == RwMode::MergeSkip) ==> 1 <= depth <= i,
            forall|k: int| 0 <= k < kept@.len()
                ==> spec_keep_region(#[trigger] kept@[k], used),
        decreases events@.len() - i,
    {
        let ghost st0 = mk_st(mode, depth, kept@);
        let ghost prev = view_events(out@);
        assert(evs[i as int] == events@[i as int].deep_view());
        let ev = &events[i];
        match mode {
            RwMode::Pass => {
                match ev {
                    XmlEvent::Start { name, attrs } => {
                        let k = kind_of(name.as_slice());
                        match k {
                            TagKind::Dimension => {
                                let nm = clone_bytes(name.as_slice());
                                let na = dim_attrs_build(attrs, used);
                                let e2 = XmlEvent::Start { name: nm, attrs: na };
                                proof {
                                    lemma_view_events_push(out@, e2);
                                }
                                out.push(e2);
                            },
                            TagKind::Row => {
                                let key = lit_attr_r();
                                let dropped = match find_attr(attrs, key.as_slice()) {
                                    Option::Some(ai) => match parse_row_number(
                                        attrs[ai].value.as_slice(),
                                    ) {
                                        Option::Some(r) => used.last_row > 0
                                            && r > used.last_row,
                                        Option::None => false,
                                    },
                                    Option::None => false,
                                };
                                assert(dropped == spec_drop_row(view_attrs(attrs@), used));
                                if dropped {
                                    mode = RwMode::Skip;
                                    depth = 1;
                                } else {
                                    let e2 = clone_event(ev);
                                    proof {
                                        lemma_view_events_push(out@, e2);
                                    }
                                    out.push(e2);
                                }
                            },
                            TagKind::Cell => {
                                let key = lit_attr_r();
                                let dropped = match find_attr(attrs, key.as_slice()) {
                                    Option::Some(ai) => match decode_address(
                                        attrs[ai].value.as_slice(),
                                    ) {
                                        Option::Some(cr) => used.last_col > 0
                                            && cr.0 > used.last_col,
                                        Option::None => false,
                                    },
                                    Option::None => false,
                                };
                                assert(dropped == spec_drop_cell(view_attrs(attrs@), used));
                                if dropped {
                                    mode = RwMode::Skip;
                                    depth = 1;
                                } else {
                                    let e2 = clone_event(ev);
                                    proof {
                                        lemma_view_events_push(out@, e2);
                                    }
                                    out.push(e2);
                                }
                            },
                            TagKind::MergeCells => {
                                mode = RwMode::Merge;
                                kept = Vec::new();
                            },
                            TagKind::Bulk => {
                                mode = RwMode::Skip;
                                depth = 1;
                            },
                            TagKind::MergeCell | TagKind::Other => {
                                let e2 = clone_event(ev);
                                proof {
                                    lemma_view_events_push(out@, e2);
                                }
                                out.push(e2);
                            },
                        }
                    },
                    XmlEvent::Empty { name, attrs } => {
                        let k = kind_of(name.as_slice());
                        match k {
                            TagKind::Dimension => {
                                let nm = clone_bytes(name.as_slice());
                                let na = dim_attrs_build(attrs, used);
                                let e2 = XmlEvent::Empty { name: nm, attrs: na };
                                proof {
                                    lemma_view_events_push(out@, e2);
                                }
                                out.push(e2);
                            },
                            TagKind::Row => {
                                let key = lit_attr_r();
                                let dropped = match find_attr(attrs, key.as_slice()) {
                                    Option::Some(ai) => match parse_row_number(
                                        attrs[ai].value.as_slice(),
                                    ) {
                                        Option::Some(r) => used.last_row > 0
                                            && r > used.last_row,
                                        Option::None => false,
                                    },
                                    Option::None => false,
                                };
                                assert(dropped == spec_drop_row(view_attrs(attrs@), used));
                                if !dropped {
                                    let e2 = clone_event(ev);
                                    proof {
                                        lemma_view_events_push(out@, e2);
                                    }
                                    out.push(e2);
                                }
                            },
                            TagKind::Cell => {
                                let key = lit_attr_r();
                                let dropped = match find_attr(attrs, key.as_slice()) {
                                    Option::Some(ai) => match decode_address(
                                        attrs[ai].value.as_slice(),
                                    ) {
                                        Option::Some(cr) => used.last_col > 0
                                            && cr.0 > used.last_col,
                                        Option::None => false,
                                    },
                                    Option::None => false,
                                };
                                assert(dropped == spec_drop_cell(view_attrs(attrs@), used));
                                if !dropped {
                                    let e2 = clone_event(ev);
                                    proof {
                                        lemma_view_events_push(out@, e2);
                                    }
                                    out.push(e2);
                                }
                            },
                            TagKind::Bulk => {},
                            TagKind::MergeCells | TagKind::MergeCell | TagKind::Other => {
                                let e2 = clone_event(ev);
                                proof {
                                    lemma_view_events_push(out@, e2);
                                }
                                out.push(e2);
                            },
                        }
                    },
                    XmlEvent::Comment { text } => {},
                    XmlEvent::DocType { text } => {},
                    _ => {
                        let e2 = clone_event(ev);
                        proof {
                            lemma_view_events_push(out@, e2);
                        }
                        out.push(e2);
                    },
                }
            },
            RwMode::Skip => {
                match ev {
                    XmlEvent::Start { name, attrs } => {
                        depth = depth + 1;
                    },
                    XmlEvent::End { name } => {
                        if depth == 1 {
                            mode = RwMode::Pass;
                            depth = 0;
                        } else {
                            depth = depth - 1;
                        }
                    },
                    _ => {},
                }
            },
            RwMode::Merge => {
                match ev {
                    XmlEvent::Empty { name, attrs } => {
                        let k = kind_of(name.as_slice());
                        if matches!(k, TagKind::MergeCell) {
                            let ghost kept0 = kept@;
                            let key = lit_attr_ref();
                            match find_attr(attrs, key.as_slice()) {
                                Option::Some(ai) => match parse_region(
                                    attrs[ai].value.as_slice(),
                                ) {
                                    Option::Some(reg) => {
                                        if keep_region(reg, used) {
                                            kept.push(reg);
                                        }
                                    },
                                    Option::None => {},
                                },
                                Option::None => {},
                            }
                            assert(kept@ == record_region(kept0, view_attrs(attrs@), used));
                        }
                    },
                    XmlEvent::Start { name, attrs } => {
                        let k = kind_of(name.as_slice());
                        if matches!(k, TagKind::MergeCell) {
                            let ghost kept0 = kept@;
                            let key = lit_attr_ref();
                            match find_attr(attrs, key.as_slice()) {
                                Option::Some(ai) => match parse_region(
                                    attrs[ai].value.as_slice(),
                                ) {
                                    Option::Some(reg) => {
                                        if keep_region(reg, used) {
                                            kept.push(reg);
                                        }
                                    },
                                    Option::None => {},
                                },
                                Option::None => {},
                            }
                            assert(kept@ == record_region(kept0, view_attrs(attrs@), used));
                        }
                        mode = RwMode::MergeSkip;
                        depth = 1;
                    },
                    XmlEvent::End { name } => {
                        let k = kind_of(name.as_slice());
                        if matches!(k, TagKind::MergeCells) {
                            assert(forall|kk: int| 0 <= kk < kept@.len()
                                ==> (#[trigger] kept@[kk]).c1 >= 1 && kept@[kk].c2 >= 1);
                            emit_merge(&mut out, &kept);
                            mode = RwMode::Pass;
                            kept = Vec::new();
                        }
                    },
                    _ => {},
                }
            },
            RwMode::MergeSkip => {
                match ev {
                    XmlEvent::Start { name, attrs } => {
                        depth = depth + 1;
                    },
                    XmlEvent::End { name } => {
                        if depth == 1 {
                            mode = RwMode::Merge;
                            depth = 0;
                        } else {
                            depth = depth - 1;
                        }
                    },
                    _ => {},
                }
            },
        }
        proof {
            let se = rw_step(st0, evs[i as int], used);
            assert(mk_st(mode, depth, kept@) == se.0);
            assert(view_events(out@) =~= prev + se.1);
        }
        i = i + 1;
    }
    proof {
        assert(rw_run(evs, i as int, mk_st(mode, depth, kept@), view_events(out@), used)
            == view_events(out@) + rw_fin(mk_st(mode, depth, kept@)));
    }
    match mode {
        RwMode::Merge | RwMode::MergeSkip => {
            assert(forall|kk: int| 0 <= kk < kept@.len()
                ==> (#[trigger] kept@[kk]).c1 >= 1 && kept@[kk].c2 >= 1);
            emit_merge(&mut out, &kept);
        },
        RwMode::Pass | RwMode::Skip => {
            proof {
                assert(view_events(out@) =~= view_events(out@)
                    + rw_fin(mk_st(mode, depth, kept@)));
            }
        },
    }
    out
}

} // verus!
