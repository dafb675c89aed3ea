//! Used-range scanner: one forward pass over a worksheet's events that
//! finds the highest populated row and column. A cell counts as populated
//! when it carries a cached value, a formula, or an inline string as an
//! immediate child, and its address attribute decodes.

use vstd::prelude::*;
use crate::UsedRange;
use crate::codec::{spec_decode_addr, decode_address};
use crate::xml::{
    AttrView, EvView, TagKind, XmlEvent, attr_lookup, find_attr, is_marker,
    is_marker_name, kind_of, lit_attr_r, local_of, n_attr_r, spec_kind, view_attrs,
    view_events,
};

verus! {

/// Where the scan stands: between cells, or inside one cell's subtree at
/// some element depth, remembering its decoded address and whether a
/// populated-cell marker was seen among its immediate children.
#[derive(Clone, Copy, Debug, PartialEq, Eq, Structural)]
pub enum ScanState {
    Outside,
    InCell { depth: usize, found: bool, has_addr: bool, col: u32, row: u32 },
}

/// Scan accumulator: the state plus the running maxima.
#[derive(Clone, Copy, Debug, PartialEq, Eq, Structural)]
pub struct ScanAcc {
    pub st: ScanState,
    pub last_row: u32,
    pub last_col: u32,
}

pub open spec fn max32(a: u32, b: u32) -> u32 {
    if a > b {
        a
    } else {
        b
    }
}

/// The address a cell-start event carries, decoded.
pub open spec fn cell_addr(attrs: Seq<AttrView>) -> Option<(u32, u32)> {
    match attr_lookup(attrs, n_attr_r()) {
        Option::Some(v) => spec_decode_addr(v),
        Option::None => Option::None,
    }
}

/// Commits a finished (or truncated) cell: a populated cell with a
/// decoded address raises the maxima.
pub open spec fn scan_commit(a: ScanAcc) -> (u32, u32) {
    match a.st {
        ScanState::Outside => (a.last_row, a.last_col),
        ScanState::InCell { depth, found, has_addr, col, row } => {
            if found && has_addr {
                (max32(a.last_row, row), max32(a.last_col, col))
            } else {
                (a.last_row, a.last_col)
            }
        },
    }
}

/// One scan step.
pub open spec fn scan_step(a: ScanAcc, ev: EvView) -> ScanAcc {
    match a.st {
        ScanState::Outside => match ev {
            EvView::Start { name, attrs } => {
                if spec_kind(local_of(name)) == TagKind::Cell {
                    match cell_addr(attrs) {
                        Option::Some(cr) => ScanAcc {
                            st: ScanState::InCell {
                                depth: 1,
                                found: false,
                                has_addr: true,
                                col: cr.0,
                                row: cr.1,
                            },
                            ..a
                        },
                        Option::None => ScanAcc {
                            st: ScanState::InCell {
                                depth: 1,
                                found: false,
                                has_addr: false,
                                col: 0,
                                row: 0,
                            },
                            ..a
                        },
                    }
                } else {
                    a
                }
            },
            _ => a,
        },
        ScanState::InCell { depth, found, has_addr, col, row } => match ev {
            EvView::Start { name, attrs } => ScanAcc {
                st: ScanState::InCell {
                    depth: (depth + 1) as usize,
                    found: found || (depth == 1 && is_marker_name(local_of(name))),
                    has_addr,
                    col,
                    row,
                },
                ..a
            },
            EvView::Empty { name, attrs } => ScanAcc {
                st: ScanState::InCell {
                    depth,
                    found: found || (depth == 1 && is_marker_name(local_of(name))),
                    has_addr,
                    col,
                    row,
                },
                ..a
            },
            EvView::End { name } => {
                if depth == 1 {
                    let rc = scan_commit(a);
                    ScanAcc { st: ScanState::Outside, last_row: rc.0, last_col: rc.1 }
                } else {
                    ScanAcc {
                        st: ScanState::InCell {
                            depth: (depth - 1) as usize,
                            found,
                            has_addr,
                            col,
                            row,
                        },
                        ..a
                    }
                }
            },
            _ => a,
        },
    }
}

/// The scan as a fold from position `i`; a cell still open at the end of
/// the stream is committed as if closed.
pub open spec fn scan_run(evs: Seq<EvView>, i: int, a: ScanAcc) -> (u32, u32)
    decreases evs.len() - i,
{
    if i < 0 || i >= evs.len() {
        scan_commit(a)
    } else {
        scan_run(evs, i + 1, scan_step(a, evs[i]))
    }
}

pub open spec fn scan_init() -> ScanAcc {
    ScanAcc { st: ScanState::Outside, last_row: 0, last_col: 0 }
}

/// The used range of a worksheet's event stream.
pub open spec fn spec_scan(evs: Seq<EvView>) -> UsedRange {
    let rc = scan_run(evs, 0, scan_init());
    UsedRange { last_row: rc.0, last_col: rc.1 }
}

/// Computes one worksheet's used range from its event stream.
pub fn find_used_range(events: &Vec<XmlEvent>) -> (u: UsedRange)
    ensures
        u == spec_scan(view_events(events@)),
{
    let ghost evs = view_events(events@);
    let mut a = ScanAcc { st: ScanState::Outside, last_row: 0, last_col: 0 };
    let mut i: usize = 0;
    while i < events.len()
        invariant
            0 <= i <= events@.len(),
            evs == view_events(events@),
            evs.len() == events@.len(),
            scan_run(evs, i as int, a) == scan_run(evs, 0, scan_init()),
            match a.st {
                ScanState::Outside => true,
                ScanState::InCell { depth, .. } => 1 <= depth <= i,
            },
        decreases events@.len() - i,
    {
        let ghost a0 = a;
        assert(evs[i as int] == events@[i as int].deep_view());
        match &events[i] {
            XmlEvent::Start { name, attrs } => {
                let k = kind_of(name.as_slice());
                match a.st {
                    ScanState::Outside => {
                        if matches!(k, TagKind::Cell) {
                            let key = lit_attr_r();
                            let addr = match find_attr(attrs, key.as_slice()) {
                                Option::Some(ai) => decode_address(attrs[ai].value.as_slice()),
                                Option::None => Option::None,
                            };
                            assert(addr == cell_addr(view_attrs(attrs@)));
                            match addr {
                                Option::Some(cr) => {
                                    a.st = ScanState::InCell {
                                        depth: 1,
                                        found: false,
                                        has_addr: true,
                                        col: cr.0,
                                        row: cr.1,
                                    };
                                },
                                Option::None => {
                                    a.st = ScanState::InCell {
                                        depth: 1,
                                        found: false,
                                        has_addr: false,
                                        col: 0,
                                        row: 0,
                                    };
                                },
                            }
                        }
                    },
                    ScanState::InCell { depth, found, has_addr, col, row } => {
                        let m = is_marker(local_name_of(name));
                        a.st = ScanState::InCell {
                            depth: depth + 1,
                            found: found || (depth == 1 && m),
                            has_addr,
                            col,
                            row,
                        };
                    },
                }
            },
            XmlEvent::Empty { name, attrs } => {
                match a.st {
                    ScanState::InCell { depth, found, has_addr, col, row } => {
                        let m = is_marker(local_name_of(name));
                        a.st = ScanState::InCell {
                            depth,
                            found: found || (depth == 1 && m),
                            has_addr,
                            col,
                            row,
                        };
                    },
                    ScanState::Outside => {},
                }
            },
            XmlEvent::End { name } => {
                match a.st {
                    ScanState::InCell { depth, found, has_addr, col, row } => {
                        if depth == 1 {
                            if found && has_addr {
                                if row > a.last_row {
                                    a.last_row = row;
                                }
                                if col > a.last_col {
                                    a.last_col = col;
                                }
                            }
                            a.st = ScanState::Outside;
                        } else {
                            a.st = ScanState::InCell {
                                depth: depth - 1,
                                found,
                                has_addr,
                                col,
                                row,
                            };
                        }
                    },
                    ScanState::Outside => {},
                }
            },
            _ => {},
        }
        assert(a == scan_step(a0, evs[i as int]));
        i = i + 1;
    }
    proof {
        assert(scan_run(evs, i as int, a) == scan_commit(a));
    }
    let rc_row: u32;
    let rc_col: u32;
    match a.st {
        ScanState::InCell { depth, found, has_addr, col, row } => {
            if found && has_addr {
                rc_row = if row > a.last_row { row } else { a.last_row };
                rc_col = if col > a.last_col { col } else { a.last_col };
            } else {
                rc_row = a.last_row;
                rc_col = a.last_col;
            }
        },
        ScanState::Outside => {
            rc_row = a.last_row;
            rc_col = a.last_col;
        },
    }
    UsedRange { last_row: rc_row, last_col: rc_col }
}

/// Returns the local part of an element name held in a vector.
fn local_name_of(name: &Vec<u8>) -> (l: &[u8])
    ensures
        l@ == local_of(name@),
{
    crate::xml::local_name(name.as_slice())
}

} // verus!
