//! Properties of the rewriter, stated over its spec and proved for every
//! input event stream: rows and cells beyond a nonzero bound never
//! appear in the output, every emitted dimension element carries the
//! corrected range (`A1:A1` when the range is empty), and no bulk
//! metadata element or comment survives.

use vstd::prelude::*;
use crate::{B_COLON, UsedRange};
use crate::codec::{is_upper, is_ascii_digit, lemma_codec_round_trip,
    spec_dec, spec_encode_col};
use crate::rewriter::{
    RwStV, Region, dim_attrs, dim_ref, first_colon_at, merge_item, merge_out, non_ref,
    record_region, region_ref, row_index, rw_fin, rw_run, rw_step, spec_drop_cell,
    spec_drop_row, spec_keep_region, spec_parse_region, spec_rewrite,
};
use crate::scanner::{ScanAcc, ScanState, cell_addr, scan_init, scan_run, scan_step, spec_scan};
use crate::xml::{
    AttrView, EvView, TagKind, attr_lookup, is_marker_name, lemma_local_of_plain, local_of,
    n_attr_ref, n_merge_cell, n_merge_cells, spec_kind,
};

verus! {

/// The name and attributes of an element event, start or self-closing.
pub open spec fn elem_parts(ev: EvView) -> Option<(Seq<u8>, Seq<AttrView>)> {
    match ev {
        EvView::Start { name, attrs } => Option::Some((name, attrs)),
        EvView::Empty { name, attrs } => Option::Some((name, attrs)),
        _ => Option::None,
    }
}

/// A row element whose decoded index exceeds a nonzero row bound.
pub open spec fn is_row_element_beyond(ev: EvView, used: UsedRange) -> bool {
    match elem_parts(ev) {
        Option::Some(na) => spec_kind(local_of(na.0)) == TagKind::Row && used.last_row > 0
            && (match row_index(na.1) {
            Option::Some(r) => r > used.last_row,
            Option::None => false,
        }),
        Option::None => false,
    }
}

/// A cell element whose decoded column exceeds a nonzero column bound.
pub open spec fn is_cell_element_beyond(ev: EvView, used: UsedRange) -> bool {
    match elem_parts(ev) {
        Option::Some(na) => spec_kind(local_of(na.0)) == TagKind::Cell && used.last_col > 0
            && (match cell_addr(na.1) {
            Option::Some(cr) => cr.0 > used.last_col,
            Option::None => false,
        }),
        Option::None => false,
    }
}

/// A bulk-metadata element.
pub open spec fn is_bulk_element(ev: EvView) -> bool {
    match elem_parts(ev) {
        Option::Some(na) => spec_kind(local_of(na.0)) == TagKind::Bulk,
        Option::None => false,
    }
}

pub open spec fn is_comment_ev(ev: EvView) -> bool {
    match ev {
        EvView::Comment { text } => true,
        _ => false,
    }
}

/// A dimension element carries the corrected range attribute.
pub open spec fn dimension_ok(ev: EvView, used: UsedRange) -> bool {
    match elem_parts(ev) {
        Option::Some(na) => spec_kind(local_of(na.0)) == TagKind::Dimension
            ==> attr_lookup(na.1, n_attr_ref()) == Option::Some(dim_ref(used)),
        Option::None => true,
    }
}

/// Everything the rewriter promises of each event it emits.
pub open spec fn ev_ok(ev: EvView, used: UsedRange) -> bool {
    &&& !is_row_element_beyond(ev, used)
    &&& !is_cell_element_beyond(ev, used)
    &&& !is_bulk_element(ev)
    &&& !is_comment_ev(ev)
    &&& dimension_ok(ev, used)
}

pub open spec fn all_ok(evs: Seq<EvView>, used: UsedRange) -> bool {
    forall|k: int| 0 <= k < evs.len() ==> ev_ok(#[trigger] evs[k], used)
}

proof fn lemma_all_ok_concat(a: Seq<EvView>, b: Seq<EvView>, used: UsedRange)
    requires
        all_ok(a, used),
        all_ok(b, used),
    ensures
        all_ok(a + b, used),
{
    assert forall|k: int| 0 <= k < (a + b).len() implies ev_ok(#[trigger] (a + b)[k], used) by {
        if k < a.len() {
            assert((a + b)[k] == a[k]);
        } else {
            assert((a + b)[k] == b[k - a.len()]);
        }
    }
}

proof fn lemma_merge_names()
    ensures
        spec_kind(local_of(n_merge_cells())) == TagKind::MergeCells,
        spec_kind(local_of(n_merge_cell())) == TagKind::MergeCell,
{
    assert(forall|k: int| 0 <= k < n_merge_cells().len() ==> n_merge_cells()[k] != 58);
    lemma_local_of_plain(n_merge_cells());
    assert(forall|k: int| 0 <= k < n_merge_cell().len() ==> n_merge_cell()[k] != 58);
    lemma_local_of_plain(n_merge_cell());
}

proof fn lemma_merge_out_ok(kept: Seq<crate::rewriter::Region>, used: UsedRange)
    ensures
        all_ok(merge_out(kept), used),
{
    lemma_merge_names();
    if kept.len() > 0 {
        let out = merge_out(kept);
        assert forall|k: int| 0 <= k < out.len() implies ev_ok(#[trigger] out[k], used) by {
            if k == 0 {
                assert(out[k] matches EvView::Start { name, attrs } && name == n_merge_cells());
            } else if k < out.len() - 1 {
                assert(out[k] == merge_item(kept[k - 1]));
            } else {
                assert(out[k] matches EvView::End { name } && name == n_merge_cells());
            }
        }
    }
}

proof fn lemma_dim_attrs_ref(attrs: Seq<AttrView>, used: UsedRange)
    ensures
        attr_lookup(dim_attrs(attrs, used), n_attr_ref()) == Option::Some(dim_ref(used)),
{
    let da = dim_attrs(attrs, used);
    assert(da.last() == AttrView { key: n_attr_ref(), value: dim_ref(used) });
}

proof fn lemma_step_ok(st: RwStV, ev: EvView, used: UsedRange)
    ensures
        all_ok(rw_step(st, ev, used).1, used),
{
    let se = rw_step(st, ev, used);
    match st {
        RwStV::Pass => {
            match ev {
                EvView::Start { name, attrs } => {
                    let k = spec_kind(local_of(name));
                    if k == TagKind::Dimension {
                        lemma_dim_attrs_ref(attrs, used);
                        assert(ev_ok(se.1[0], used));
                    } else if k == TagKind::Row {
                        if !spec_drop_row(attrs, used) {
                            assert(ev_ok(se.1[0], used));
                        }
                    } else if k == TagKind::Cell {
                        if !spec_drop_cell(attrs, used) {
                            assert(ev_ok(se.1[0], used));
                        }
                    } else if k == TagKind::MergeCells || k == TagKind::Bulk {
                    } else {
                        assert(ev_ok(se.1[0], used));
                    }
                },
                EvView::Empty { name, attrs } => {
                    let k = spec_kind(local_of(name));
                    if k == TagKind::Dimension {
                        lemma_dim_attrs_ref(attrs, used);
                        assert(ev_ok(se.1[0], used));
                    } else if k == TagKind::Row {
                        if !spec_drop_row(attrs, used) {
                            assert(ev_ok(se.1[0], used));
                        }
                    } else if k == TagKind::Cell {
                        if !spec_drop_cell(attrs, used) {
                            assert(ev_ok(se.1[0], used));
                        }
                    } else if k == TagKind::Bulk {
                    } else {
                        assert(ev_ok(se.1[0], used));
                    }
                },
                EvView::Comment { text } => {},
                EvView::DocType { text } => {},
                _ => {
                    assert(ev_ok(se.1[0], used));
                },
            }
        },
        RwStV::Skip { depth } => {},
        RwStV::Merge { kept } => {
            match ev {
                EvView::End { name } => {
                    if spec_kind(local_of(name)) == TagKind::MergeCells {
                        lemma_merge_out_ok(kept, used);
                    }
                },
                _ => {},
            }
        },
        RwStV::MergeSkip { kept, depth } => {},
    }
}

proof fn lemma_fin_ok(st: RwStV, used: UsedRange)
    ensures
        all_ok(rw_fin(st), used),
{
    match st {
        RwStV::Merge { kept } => {
            lemma_merge_out_ok(kept, used);
        },
        RwStV::MergeSkip { kept, depth } => {
            lemma_merge_out_ok(kept, used);
        },
        _ => {},
    }
}

proof fn lemma_rw_run_ok(
    evs: Seq<EvView>,
    i: int,
    st: RwStV,
    out: Seq<EvView>,
    used: UsedRange,
)
    requires
        all_ok(out, used),
    ensures
        all_ok(rw_run(evs, i, st, out, used), used),
    decreases evs.len() - i,
{
    if i < 0 || i >= evs.len() {
        lemma_fin_ok(st, used);
        lemma_all_ok_concat(out, rw_fin(st), used);
    } else {
        let se = rw_step(st, evs[i], used);
        lemma_step_ok(st, evs[i], used);
        lemma_all_ok_concat(out, se.1, used);
        lemma_rw_run_ok(evs, i + 1, se.0, out + se.1, used);
    }
}

/// Every event the rewriter emits satisfies all its per-event promises.
pub proof fn lemma_rewrite_ok(evs: Seq<EvView>, used: UsedRange)
    ensures
        all_ok(spec_rewrite(evs, used), used),
{
    lemma_rw_run_ok(evs, 0, RwStV::Pass, Seq::empty(), used);
}

/// Bound enforcement: for any input stream, no row element whose index
/// exceeds a nonzero row bound, and no cell element whose column exceeds
/// a nonzero column bound, appears in the rewritten output.
pub proof fn lemma_rewrite_bound_enforcement(evs: Seq<EvView>, used: UsedRange, k: int)
    requires
        0 <= k < spec_rewrite(evs, used).len(),
    ensures
        !is_row_element_beyond(spec_rewrite(evs, used)[k], used),
        !is_cell_element_beyond(spec_rewrite(evs, used)[k], used),
{
    lemma_rewrite_ok(evs, used);
}

/// Every dimension element in the rewritten output carries exactly the
/// corrected range attribute; with an empty used range it reads `A1:A1`.
pub proof fn lemma_rewrite_dimension(evs: Seq<EvView>, used: UsedRange, k: int)
    requires
        0 <= k < spec_rewrite(evs, used).len(),
    ensures
        dimension_ok(spec_rewrite(evs, used)[k], used),
        used.last_row == 0 && used.last_col == 0
            ==> dim_ref(used) == seq![65u8, 49u8, 58u8, 65u8, 49u8],
{
    lemma_rewrite_ok(evs, used);
}

/// Bulk-block and comment elision: no bulk-metadata element and no
/// comment appears in the rewritten output, whatever the input held.
pub proof fn lemma_rewrite_elides_bulk(evs: Seq<EvView>, used: UsedRange, k: int)
    requires
        0 <= k < spec_rewrite(evs, used).len(),
    ensures
        !is_bulk_element(spec_rewrite(evs, used)[k]),
        !is_comment_ev(spec_rewrite(evs, used)[k]),
{
    lemma_rewrite_ok(evs, used);
}

proof fn lemma_first_colon_seek(s: Seq<u8>, i: int, p: int)
    requires
        0 <= i <= p < s.len(),
        s[p] == B_COLON,
        forall|k: int| i <= k < p ==> s[k] != B_COLON,
    ensures
        first_colon_at(s, i) == Option::Some(p),
    decreases p - i,
{
    if i < p {
        lemma_first_colon_seek(s, i + 1, p);
    }
}

/// Merge re-scan stability: the range text a retained region is
/// re-emitted with decodes back to exactly that region.
pub proof fn lemma_region_ref_round_trip(reg: Region)
    requires
        reg.c1 >= 1,
        reg.c2 >= 1,
    ensures
        spec_parse_region(region_ref(reg)) == Option::Some(reg),
{
    let e1 = spec_encode_col(reg.c1 as int);
    let d1 = spec_dec(reg.r1 as int);
    let e2 = spec_encode_col(reg.c2 as int);
    let d2 = spec_dec(reg.r2 as int);
    let s = region_ref(reg);
    let p = e1.len() + d1.len();
    crate::codec::lemma_encode_col_shape(reg.c1 as int);
    crate::codec::lemma_dec_shape(reg.r1 as int);
    crate::codec::lemma_encode_col_shape(reg.c2 as int);
    crate::codec::lemma_dec_shape(reg.r2 as int);
    assert(s[p as int] == B_COLON);
    assert forall|k: int| 0 <= k < p implies s[k] != B_COLON by {
        if k < e1.len() {
            assert(s[k] == e1[k]);
            assert(is_upper(e1[k]));
        } else {
            assert(s[k] == d1[k - e1.len()]);
            assert(is_ascii_digit(d1[k - e1.len()]));
        }
    }
    lemma_first_colon_seek(s, 0, p as int);
    assert(s.take(p as int) =~= e1 + d1);
    assert(s.skip(p as int + 1) =~= e2 + d2);
    lemma_codec_round_trip(reg.c1, reg.r1);
    lemma_codec_round_trip(reg.c2, reg.r2);
}

/// A second look at an emitted merge-region element records exactly the
/// region it was emitted for.
pub proof fn lemma_merge_item_rescan(acc: Seq<Region>, reg: Region, used: UsedRange)
    requires
        spec_keep_region(reg, used),
    ensures
        record_region(acc, merge_item(reg)->Empty_attrs, used) == acc.push(reg),
{
    let attrs = merge_item(reg)->Empty_attrs;
    assert(attrs.last() == AttrView { key: n_attr_ref(), value: region_ref(reg) });
    lemma_region_ref_round_trip(reg);
}

/// Merge stability: rewriting an emitted merge container alone yields
/// exactly the same container, for any retained-region list the
/// rewriter can produce.
pub proof fn lemma_merge_block_idem(kept: Seq<Region>, used: UsedRange)
    requires
        forall|k: int| 0 <= k < kept.len() ==> spec_keep_region(#[trigger] kept[k], used),
    ensures
        spec_rewrite(merge_out(kept), used) == merge_out(kept),
{
    lemma_merge_block_steps_pass(kept, used);
    lemma_run_is_steps(merge_out(kept), 0, RwStV::Pass, Seq::empty(), used);
    assert(Seq::empty() + merge_out(kept) + rw_fin(RwStV::Pass) =~= merge_out(kept));
}

proof fn lemma_non_ref_keys(attrs: Seq<AttrView>, i: int, acc: Seq<AttrView>)
    requires
        forall|k: int| 0 <= k < acc.len() ==> (#[trigger] acc[k]).key != n_attr_ref(),
    ensures
        forall|k: int| 0 <= k < non_ref(attrs, i, acc).len()
            ==> (#[trigger] non_ref(attrs, i, acc)[k]).key != n_attr_ref(),
    decreases attrs.len() - i,
{
    if 0 <= i < attrs.len() {
        if attrs[i].key == n_attr_ref() {
            lemma_non_ref_keys(attrs, i + 1, acc);
            assert(non_ref(attrs, i, acc) == non_ref(attrs, i + 1, acc));
        } else {
            let acc2 = acc.push(attrs[i]);
            assert forall|k: int| 0 <= k < acc2.len()
                implies (#[trigger] acc2[k]).key != n_attr_ref() by {
                if k < acc.len() {
                    assert(acc2[k] == acc[k]);
                } else {
                    assert(acc2[k] == attrs[i]);
                }
            }
            lemma_non_ref_keys(attrs, i + 1, acc2);
            assert(non_ref(attrs, i, acc) == non_ref(attrs, i + 1, acc2));
        }
    } else {
        assert(non_ref(attrs, i, acc) == acc);
    }
}

proof fn lemma_non_ref_of_clean(t: Seq<AttrView>, i: int, acc: Seq<AttrView>)
    requires
        0 <= i <= t.len() - 1,
        forall|k: int| 0 <= k < t.len() - 1 ==> (#[trigger] t[k]).key != n_attr_ref(),
        t.last().key == n_attr_ref(),
    ensures
        non_ref(t, i, acc) == acc + t.subrange(i, t.len() - 1),
    decreases t.len() - i,
{
    if i == t.len() - 1 {
        assert(non_ref(t, i, acc) == non_ref(t, i + 1, acc));
        assert(acc + t.subrange(i, t.len() - 1) =~= acc);
    } else {
        lemma_non_ref_of_clean(t, i + 1, acc.push(t[i]));
        assert(acc.push(t[i]) + t.subrange(i + 1, t.len() - 1)
            =~= acc + t.subrange(i, t.len() - 1));
    }
}

/// Dimension stability: rewriting an already-corrected dimension
/// attribute list leaves it unchanged.
pub proof fn lemma_dim_attrs_stable(attrs: Seq<AttrView>, used: UsedRange)
    ensures
        dim_attrs(dim_attrs(attrs, used), used) == dim_attrs(attrs, used),
{
    let n = non_ref(attrs, 0, Seq::empty());
    let t = dim_attrs(attrs, used);
    assert(forall|k: int| 0 <= k < Seq::<AttrView>::empty().len()
        ==> (#[trigger] Seq::<AttrView>::empty()[k]).key != n_attr_ref());
    lemma_non_ref_keys(attrs, 0, Seq::empty());
    assert(forall|k: int| 0 <= k < t.len() - 1 ==> (#[trigger] t[k]).key != n_attr_ref());
    assert(t.last().key == n_attr_ref());
    lemma_non_ref_of_clean(t, 0, Seq::empty());
    assert(non_ref(t, 0, Seq::empty()) =~= n);
}

/// No element of the stream is a populated-cell marker.
pub open spec fn no_markers(evs: Seq<EvView>) -> bool {
    forall|k: int| 0 <= k < evs.len() ==> match #[trigger] evs[k] {
        EvView::Start { name, attrs } => !is_marker_name(local_of(name)),
        EvView::Empty { name, attrs } => !is_marker_name(local_of(name)),
        _ => true,
    }
}

proof fn lemma_scan_no_markers_run(evs: Seq<EvView>, i: int, a: ScanAcc)
    requires
        no_markers(evs),
        a.last_row == 0,
        a.last_col == 0,
        match a.st {
            ScanState::Outside => true,
            ScanState::InCell { depth, found, has_addr, col, row } => !found,
        },
    ensures
        scan_run(evs, i, a) == (0u32, 0u32),
    decreases evs.len() - i,
{
    if 0 <= i < evs.len() {
        lemma_scan_no_markers_run(evs, i + 1, scan_step(a, evs[i]));
    }
}

/// Scanner emptiness: a stream whose elements never include a cached
/// value, formula or inline-string marker scans to the empty used range,
/// whatever rows, cells and addresses it declares.
pub proof fn lemma_scan_emptiness(evs: Seq<EvView>)
    requires
        no_markers(evs),
    ensures
        spec_scan(evs) == (UsedRange { last_row: 0, last_col: 0 }),
{
    lemma_scan_no_markers_run(evs, 0, scan_init());
}

/// The rewrite as a fold that returns the final state beside the
/// emissions, without the end-of-stream finalizer.
pub open spec fn rw_steps(
    evs: Seq<EvView>,
    i: int,
    st: RwStV,
    used: UsedRange,
) -> (RwStV, Seq<EvView>)
    decreases evs.len() - i,
{
    if i < 0 || i >= evs.len() {
        (st, Seq::empty())
    } else {
        let se = rw_step(st, evs[i], used);
        let rest = rw_steps(evs, i + 1, se.0, used);
        (rest.0, se.1 + rest.1)
    }
}

proof fn lemma_run_is_steps(evs: Seq<EvView>, i: int, st: RwStV, out: Seq<EvView>, used: UsedRange)
    ensures
        rw_run(evs, i, st, out, used)
            == out + rw_steps(evs, i, st, used).1 + rw_fin(rw_steps(evs, i, st, used).0),
    decreases evs.len() - i,
{
    if i < 0 || i >= evs.len() {
        assert(out + Seq::<EvView>::empty() + rw_fin(st) =~= out + rw_fin(st));
    } else {
        let se = rw_step(st, evs[i], used);
        let rest = rw_steps(evs, i + 1, se.0, used);
        lemma_run_is_steps(evs, i + 1, se.0, out + se.1, used);
        assert(out + se.1 + rest.1 + rw_fin(rest.0)
            =~= out + (se.1 + rest.1) + rw_fin(rest.0));
    }
}

proof fn lemma_steps_shift(a: Seq<EvView>, b: Seq<EvView>, k: int, st: RwStV, used: UsedRange)
    requires
        0 <= k <= b.len(),
    ensures
        rw_steps(a + b, a.len() + k, st, used) == rw_steps(b, k, st, used),
    decreases b.len() - k,
{
    if k < b.len() {
        assert((a + b)[a.len() + k] == b[k]);
        let se = rw_step(st, b[k], used);
        lemma_steps_shift(a, b, k + 1, se.0, used);
    }
}

proof fn lemma_steps_concat(a: Seq<EvView>, b: Seq<EvView>, j: int, st: RwStV, used: UsedRange)
    requires
        0 <= j <= a.len(),
    ensures
        ({
            let r1 = rw_steps(a, j, st, used);
            let r2 = rw_steps(b, 0, r1.0, used);
            rw_steps(a + b, j, st, used) == (r2.0, r1.1 + r2.1)
        }),
    decreases a.len() - j,
{
    let r1 = rw_steps(a, j, st, used);
    let r2 = rw_steps(b, 0, r1.0, used);
    if j == a.len() {
        lemma_steps_shift(a, b, 0, st, used);
        assert(Seq::<EvView>::empty() + r2.1 =~= r2.1);
    } else {
        assert((a + b)[j] == a[j]);
        let se = rw_step(st, a[j], used);
        lemma_steps_concat(a, b, j + 1, se.0, used);
        let q1 = rw_steps(a, j + 1, se.0, used);
        let q2 = rw_steps(b, 0, q1.0, used);
        assert(se.1 + (q1.1 + q2.1) =~= (se.1 + q1.1) + q2.1);
    }
}

/// The retained-region lists a rewrite state can hold: every region
/// passed the bounds check.
pub open spec fn st_inv(st: RwStV, used: UsedRange) -> bool {
    match st {
        RwStV::Pass => true,
        RwStV::Skip { depth } => true,
        RwStV::Merge { kept } => forall|k: int| 0 <= k < kept.len()
            ==> spec_keep_region(#[trigger] kept[k], used),
        RwStV::MergeSkip { kept, depth } => forall|k: int| 0 <= k < kept.len()
            ==> spec_keep_region(#[trigger] kept[k], used),
    }
}

proof fn lemma_step_inv(st: RwStV, ev: EvView, used: UsedRange)
    requires
        st_inv(st, used),
    ensures
        st_inv(rw_step(st, ev, used).0, used),
{
    let st2 = rw_step(st, ev, used).0;
    match st {
        RwStV::Merge { kept } => {
            match ev {
                EvView::Empty { name, attrs } => {
                    let kept2 = record_region(kept, attrs, used);
                    assert forall|k: int| 0 <= k < kept2.len()
                        implies spec_keep_region(#[trigger] kept2[k], used) by {
                        if k < kept.len() {
                            assert(kept2[k] == kept[k]);
                        }
                    }
                },
                EvView::Start { name, attrs } => {
                    let kept2 = record_region(kept, attrs, used);
                    assert forall|k: int| 0 <= k < kept2.len()
                        implies spec_keep_region(#[trigger] kept2[k], used) by {
                        if k < kept.len() {
                            assert(kept2[k] == kept[k]);
                        }
                    }
                },
                _ => {},
            }
        },
        _ => {},
    }
}

proof fn lemma_steps_nil(st: RwStV, used: UsedRange)
    ensures
        rw_steps(Seq::empty(), 0, st, used) == (st, Seq::<EvView>::empty()),
{
}

proof fn lemma_steps_one(ev: EvView, used: UsedRange)
    requires
        rw_step(RwStV::Pass, ev, used).0 == RwStV::Pass,
    ensures
        rw_steps(seq![ev], 0, RwStV::Pass, used)
            == (RwStV::Pass, rw_step(RwStV::Pass, ev, used).1),
{
    let se = rw_step(RwStV::Pass, ev, used);
    assert(seq![ev][0] == ev);
    assert(rw_steps(seq![ev], 1, se.0, used) == (se.0, Seq::<EvView>::empty()));
    assert(se.1 + Seq::<EvView>::empty() =~= se.1);
}

proof fn lemma_merge_block_steps(kept: Seq<Region>, j: int, used: UsedRange)
    requires
        kept.len() > 0,
        1 <= j <= kept.len() + 1,
        forall|k: int| 0 <= k < kept.len() ==> spec_keep_region(#[trigger] kept[k], used),
    ensures
        rw_steps(merge_out(kept), j, RwStV::Merge { kept: kept.take(j - 1) }, used)
            == (RwStV::Pass, merge_out(kept)),
    decreases kept.len() + 2 - j,
{
    let s = merge_out(kept);
    assert(s.len() == kept.len() + 2);
    lemma_merge_names();
    if j == kept.len() + 1 {
        assert(s[j] == EvView::End { name: n_merge_cells() });
        let se = rw_step(RwStV::Merge { kept: kept.take(j - 1) }, s[j], used);
        assert(kept.take(j - 1) =~= kept);
        assert(se.0 == RwStV::Pass);
        assert(se.1 == merge_out(kept));
        assert(rw_steps(s, j + 1, se.0, used) == (se.0, Seq::<EvView>::empty()));
        assert(merge_out(kept) + Seq::<EvView>::empty() =~= merge_out(kept));
        assert(rw_steps(s, j, RwStV::Merge { kept: kept.take(j - 1) }, used)
            == (RwStV::Pass, se.1 + Seq::<EvView>::empty()));
    } else {
        let reg = kept[j - 1];
        assert(s[j] == (Seq::new(kept.len(), |i: int| merge_item(kept[i])))[j - 1]);
        assert(s[j] == merge_item(reg));
        let se = rw_step(RwStV::Merge { kept: kept.take(j - 1) }, s[j], used);
        lemma_merge_item_rescan(kept.take(j - 1), reg, used);
        assert(kept.take(j - 1).push(reg) =~= kept.take(j));
        assert(se.0 == RwStV::Merge { kept: kept.take(j) });
        assert(se.1 == Seq::<EvView>::empty());
        lemma_merge_block_steps(kept, j + 1, used);
        assert(rw_steps(s, j + 1, se.0, used) == (RwStV::Pass, merge_out(kept)));
        assert(Seq::<EvView>::empty() + merge_out(kept) =~= merge_out(kept));
        assert(rw_steps(s, j, RwStV::Merge { kept: kept.take(j - 1) }, used)
            == (RwStV::Pass, se.1 + merge_out(kept)));
    }
}

/// Processing an emitted merge container from the pass-through state
/// re-emits it exactly and returns to the pass-through state.
proof fn lemma_merge_block_steps_pass(kept: Seq<Region>, used: UsedRange)
    requires
        forall|k: int| 0 <= k < kept.len() ==> spec_keep_region(#[trigger] kept[k], used),
    ensures
        rw_steps(merge_out(kept), 0, RwStV::Pass, used) == (RwStV::Pass, merge_out(kept)),
{
    let s = merge_out(kept);
    if kept.len() > 0 {
        lemma_merge_names();
        assert(s[0] matches EvView::Start { name, attrs } && name == n_merge_cells());
        let se = rw_step(RwStV::Pass, s[0], used);
        assert(se.0 == RwStV::Merge { kept: Seq::empty() });
        assert(kept.take(0) =~= Seq::<Region>::empty());
        lemma_merge_block_steps(kept, 1, used);
        assert(Seq::<EvView>::empty() + merge_out(kept) =~= merge_out(kept));
    }
}

/// Re-processing what one rewrite step emitted, from the pass-through
/// state, emits it unchanged and ends in the pass-through state.
proof fn lemma_block_stable(st: RwStV, ev: EvView, used: UsedRange)
    requires
        st_inv(st, used),
    ensures
        rw_steps(rw_step(st, ev, used).1, 0, RwStV::Pass, used)
            == (RwStV::Pass, rw_step(st, ev, used).1),
{
    let em = rw_step(st, ev, used).1;
    if em.len() == 0 {
        assert(em =~= Seq::<EvView>::empty());
        lemma_steps_nil(RwStV::Pass, used);
    } else {
        match st {
            RwStV::Pass => {
                match ev {
                    EvView::Start { name, attrs } => {
                        let k = spec_kind(local_of(name));
                        if k == TagKind::Dimension {
                            lemma_dim_attrs_stable(attrs, used);
                            let ev2 = EvView::Start { name, attrs: dim_attrs(attrs, used) };
                            assert(em == seq![ev2]);
                            assert(rw_step(RwStV::Pass, ev2, used) == (RwStV::Pass, em));
                            lemma_steps_one(ev2, used);
                        } else {
                            assert(em == seq![ev]);
                            assert(rw_step(RwStV::Pass, ev, used) == (RwStV::Pass, em));
                            lemma_steps_one(ev, used);
                        }
                    },
                    EvView::Empty { name, attrs } => {
                        let k = spec_kind(local_of(name));
                        if k == TagKind::Dimension {
                            lemma_dim_attrs_stable(attrs, used);
                            let ev2 = EvView::Empty { name, attrs: dim_attrs(attrs, used) };
                            assert(em == seq![ev2]);
                            assert(rw_step(RwStV::Pass, ev2, used) == (RwStV::Pass, em));
                            lemma_steps_one(ev2, used);
                        } else {
                            assert(em == seq![ev]);
                            assert(rw_step(RwStV::Pass, ev, used) == (RwStV::Pass, em));
                            lemma_steps_one(ev, used);
                        }
                    },
                    _ => {
                        assert(em == seq![ev]);
                        assert(rw_step(RwStV::Pass, ev, used) == (RwStV::Pass, em));
                        lemma_steps_one(ev, used);
                    },
                }
            },
            RwStV::Skip { depth } => {
                assert(false);
            },
            RwStV::Merge { kept } => {
                match ev {
                    EvView::End { name } => {
                        assert(spec_kind(local_of(name)) == TagKind::MergeCells);
                        assert(em == merge_out(kept));
                        lemma_merge_block_steps_pass(kept, used);
                    },
                    _ => {
                        assert(false);
                    },
                }
            },
            RwStV::MergeSkip { kept, depth } => {
                assert(false);
            },
        }
    }
}

proof fn lemma_second_pass(evs: Seq<EvView>, i: int, st: RwStV, used: UsedRange)
    requires
        st_inv(st, used),
    ensures
        rw_steps(rw_steps(evs, i, st, used).1, 0, RwStV::Pass, used)
            == (RwStV::Pass, rw_steps(evs, i, st, used).1),
    decreases evs.len() - i,
{
    if 0 <= i < evs.len() {
        let se = rw_step(st, evs[i], used);
        let rest = rw_steps(evs, i + 1, se.0, used);
        lemma_block_stable(st, evs[i], used);
        lemma_step_inv(st, evs[i], used);
        lemma_second_pass(evs, i + 1, se.0, used);
        lemma_steps_concat(se.1, rest.1, 0, RwStV::Pass, used);
    }
}

proof fn lemma_inv_run(evs: Seq<EvView>, i: int, st: RwStV, used: UsedRange)
    requires
        st_inv(st, used),
    ensures
        st_inv(rw_steps(evs, i, st, used).0, used),
    decreases evs.len() - i,
{
    if 0 <= i < evs.len() {
        let se = rw_step(st, evs[i], used);
        lemma_step_inv(st, evs[i], used);
        lemma_inv_run(evs, i + 1, se.0, used);
    }
}

/// Idempotence: rewriting an already-rewritten event stream, under the
/// same used range, changes nothing.
pub proof fn lemma_rewrite_idempotent(evs: Seq<EvView>, used: UsedRange)
    ensures
        spec_rewrite(spec_rewrite(evs, used), used) == spec_rewrite(evs, used),
{
    let e = rw_steps(evs, 0, RwStV::Pass, used);
    lemma_run_is_steps(evs, 0, RwStV::Pass, Seq::empty(), used);
    let fin = rw_fin(e.0);
    assert(spec_rewrite(evs, used) =~= e.1 + fin);
    lemma_inv_run(evs, 0, RwStV::Pass, used);
    lemma_second_pass(evs, 0, RwStV::Pass, used);
    let fin_block: Seq<EvView> = match e.0 {
        RwStV::Merge { kept } => merge_out(kept),
        RwStV::MergeSkip { kept, depth } => merge_out(kept),
        _ => Seq::empty(),
    };
    assert(fin == fin_block);
    match e.0 {
        RwStV::Merge { kept } => {
            lemma_merge_block_steps_pass(kept, used);
        },
        RwStV::MergeSkip { kept, depth } => {
            lemma_merge_block_steps_pass(kept, used);
        },
        _ => {},
    }
    assert(rw_steps(fin, 0, RwStV::Pass, used) == (RwStV::Pass, fin));
    lemma_steps_concat(e.1, fin, 0, RwStV::Pass, used);
    assert(rw_steps(e.1 + fin, 0, RwStV::Pass, used) == (RwStV::Pass, e.1 + fin));
    lemma_run_is_steps(e.1 + fin, 0, RwStV::Pass, Seq::empty(), used);
    assert(spec_rewrite(e.1 + fin, used) =~= (e.1 + fin) + rw_fin(RwStV::Pass));
    assert((e.1 + fin) + rw_fin(RwStV::Pass) =~= e.1 + fin);
}

} // verus!
