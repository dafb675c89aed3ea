//! Per-worksheet pipeline: tokenize, scan the used range, rewrite,
//! serialize. Also the package-level naming rules: which archive members
//! are worksheet parts and which one is the disposable calculation
//! chain.

use vstd::prelude::*;
use crate::{UsedRange, XmlError};
use crate::emit::{serialize_events, spec_serialize};
use crate::rewriter::{rewrite_events, spec_rewrite};
use crate::scanner::{find_used_range, spec_scan};
use crate::token::{spec_tokenize, tokenize};
use crate::xml::{EvView, bytes_eq, view_events};

verus! {

/// What one worksheet's markup becomes: `None` exactly when it cannot
/// be tokenized, else the rewritten markup clamped to its scanned used
/// range.
pub open spec fn spec_trim_sheet(s: Seq<u8>) -> Option<Seq<u8>> {
    match spec_tokenize(s) {
        Option::None => Option::None,
        Option::Some(evs) => Option::Some(spec_serialize(spec_rewrite(evs, spec_scan(evs)))),
    }
}

/// The used range a worksheet's markup declares through its populated
/// cells; `None` exactly when the markup cannot be tokenized.
pub open spec fn spec_sheet_used_range(s: Seq<u8>) -> Option<UsedRange> {
    match spec_tokenize(s) {
        Option::None => Option::None,
        Option::Some(evs) => Option::Some(spec_scan(evs)),
    }
}

/// Scans one worksheet's markup for its used range.
pub fn sheet_used_range(xml: &[u8]) -> (r: Result<UsedRange, XmlError>)
    ensures
        match r {
            Result::Ok(u) => spec_sheet_used_range(xml@) == Option::Some(u),
            Result::Err(e) => spec_sheet_used_range(xml@) == Option::None::<UsedRange>
                && e == XmlError::Malformed,
        },
{
    let events = match tokenize(xml) {
        Result::Ok(evs) => evs,
        Result::Err(e) => {
            return Result::Err(e);
        },
    };
    Result::Ok(find_used_range(&events))
}

/// Runs the two-pass transform on one worksheet's markup.
pub fn trim_sheet(xml: &[u8]) -> (r: Result<Vec<u8>, XmlError>)
    ensures
        match r {
            Result::Ok(out) => spec_trim_sheet(xml@) == Option::Some(out@),
            Result::Err(e) => spec_trim_sheet(xml@) == Option::None::<Seq<u8>>
                && e == XmlError::Malformed,
        },
{
    let events = match tokenize(xml) {
        Result::Ok(evs) => evs,
        Result::Err(e) => {
            return Result::Err(e);
        },
    };
    let used = find_used_range(&events);
    let trimmed = rewrite_events(&events, used);
    Result::Ok(serialize_events(&trimmed))
}

/// The worksheet-storage prefix `xl/worksheets/`.
pub open spec fn ws_prefix() -> Seq<u8> {
    seq![120u8, 108u8, 47u8, 119u8, 111u8, 114u8, 107u8, 115u8, 104u8, 101u8, 101u8, 116u8,
        115u8, 47u8]
}

/// The markup extension `.xml`.
pub open spec fn xml_ext() -> Seq<u8> {
    seq![46u8, 120u8, 109u8, 108u8]
}

/// The calculation-chain member path `xl/calcChain.xml`.
pub open spec fn calc_chain_name() -> Seq<u8> {
    seq![120u8, 108u8, 47u8, 99u8, 97u8, 108u8, 99u8, 67u8, 104u8, 97u8, 105u8, 110u8,
        46u8, 120u8, 109u8, 108u8]
}

/// A member is a worksheet part iff it lies under the worksheet-storage
/// prefix and carries the markup extension.
pub open spec fn spec_is_worksheet_member(name: Seq<u8>) -> bool {
    name.len() >= 18 && name.take(14) == ws_prefix()
        && name.skip(name.len() - 4) == xml_ext()
}

fn lit_ws_prefix() -> (v: Vec<u8>)
    ensures
        v@ == ws_prefix(),
{
    let v: Vec<u8> = vec![120u8, 108u8, 47u8, 119u8, 111u8, 114u8, 107u8, 115u8, 104u8,
        101u8, 101u8, 116u8, 115u8, 47u8];
    assert(v@ =~= ws_prefix());
    v
}

fn lit_xml_ext() -> (v: Vec<u8>)
    ensures
        v@ == xml_ext(),
{
    let v: Vec<u8> = vec![46u8, 120u8, 109u8, 108u8];
    assert(v@ =~= xml_ext());
    v
}

fn lit_calc_chain() -> (v: Vec<u8>)
    ensures
        v@ == calc_chain_name(),
{
    let v: Vec<u8> = vec![120u8, 108u8, 47u8, 99u8, 97u8, 108u8, 99u8, 67u8, 104u8, 97u8,
        105u8, 110u8, 46u8, 120u8, 109u8, 108u8];
    assert(v@ =~= calc_chain_name());
    v
}

/// Decides whether an archive member path names a worksheet part.
pub fn is_worksheet_member(name: &[u8]) -> (r: bool)
    ensures
        r == spec_is_worksheet_member(name@),
{
    if name.len() < 18 {
        return false;
    }
    let head = vstd::slice::slice_subrange(name, 0, 14);
    assert(head@ =~= name@.take(14));
    let tail = vstd::slice::slice_subrange(name, name.len() - 4, name.len());
    assert(tail@ =~= name@.skip(name@.len() - 4));
    let p = lit_ws_prefix();
    let e = lit_xml_ext();
    bytes_eq(head, p.as_slice()) && bytes_eq(tail, e.as_slice())
}

/// Decides whether an archive member path names the calculation chain.
pub fn is_calc_chain_member(name: &[u8]) -> (r: bool)
    ensures
        r == (name@ == calc_chain_name()),
{
    let c = lit_calc_chain();
    bytes_eq(name, c.as_slice())
}

} // verus!
