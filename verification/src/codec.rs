//! Cell-reference codec: converts between textual addresses such as `BC12`
//! and numeric `(column, row)` pairs. Columns use a bijective base-26
//! letter encoding (`A` = 1, ..., `Z` = 26, `AA` = 27, ...).

use vstd::prelude::*;
use vstd::arithmetic::div_mod::lemma_fundamental_div_mod;
use crate::{LET_A, LET_Z, DIG_0, DIG_9};

verus! {

pub open spec fn is_upper(b: u8) -> bool {
    LET_A <= b && b <= LET_Z
}

pub open spec fn is_ascii_digit(b: u8) -> bool {
    DIG_0 <= b && b <= DIG_9
}

pub open spec fn all_upper(s: Seq<u8>) -> bool {
    forall|i: int| 0 <= i < s.len() ==> is_upper(#[trigger] s[i])
}

pub open spec fn all_digits(s: Seq<u8>) -> bool {
    forall|i: int| 0 <= i < s.len() ==> is_ascii_digit(#[trigger] s[i])
}

/// Mathematical value of a column-letter string: bijective base 26.
pub open spec fn col_val(s: Seq<u8>) -> int
    decreases s.len(),
{
    if s.len() == 0 {
        0
    } else {
        col_val(s.drop_last()) * 26 + (s.last() - LET_A + 1)
    }
}

/// Mathematical value of a decimal digit string.
pub open spec fn digits_val(s: Seq<u8>) -> int
    decreases s.len(),
{
    if s.len() == 0 {
        0
    } else {
        digits_val(s.drop_last()) * 10 + (s.last() - DIG_0)
    }
}

/// The bijective base-26 letter encoding of a column index.
pub open spec fn spec_encode_col(i: int) -> Seq<u8>
    decreases i,
{
    if i <= 0 {
        Seq::empty()
    } else {
        spec_encode_col((i - 1) / 26).push((LET_A + (i - 1) % 26) as u8)
    }
}

/// The decimal digit string of a nonnegative integer.
pub open spec fn spec_dec(n: int) -> Seq<u8>
    decreases n,
{
    if n < 10 {
        seq![(DIG_0 + if n >= 0 { n } else { 0 }) as u8]
    } else {
        spec_dec(n / 10).push((DIG_0 + n % 10) as u8)
    }
}

/// What a column-letter string decodes to: its value, unless a letter is
/// out of range or the value does not fit the result type.
pub open spec fn spec_col_index(s: Seq<u8>) -> Option<u32> {
    if !all_upper(s) {
        Option::None
    } else if col_val(s) > u32::MAX {
        Option::None
    } else {
        Option::Some(col_val(s) as u32)
    }
}

/// What a decimal digit string parses to: its value, unless it is empty,
/// holds a non-digit, or the value does not fit the result type.
pub open spec fn spec_parse_u32(s: Seq<u8>) -> Option<u32> {
    if s.len() == 0 || !all_digits(s) {
        Option::None
    } else if digits_val(s) > u32::MAX {
        Option::None
    } else {
        Option::Some(digits_val(s) as u32)
    }
}

/// Index of the first decimal digit of `s` at or after `i`.
pub open spec fn first_digit_at(s: Seq<u8>, i: int) -> Option<int>
    decreases s.len() - i,
{
    if i < 0 || i >= s.len() {
        Option::None
    } else if is_ascii_digit(s[i]) {
        Option::Some(i)
    } else {
        first_digit_at(s, i + 1)
    }
}

/// What a textual cell address decodes to: split at the first digit, the
/// letter prefix is the column, the digit suffix is the row.
pub open spec fn spec_decode_addr(s: Seq<u8>) -> Option<(u32, u32)> {
    match first_digit_at(s, 0) {
        Option::None => Option::None,
        Option::Some(p) => match spec_col_index(s.take(p)) {
            Option::None => Option::None,
            Option::Some(c) => match spec_parse_u32(s.skip(p)) {
                Option::None => Option::None,
                Option::Some(r) => Option::Some((c, r)),
            },
        },
    }
}

proof fn lemma_col_val_nonneg(s: Seq<u8>)
    requires
        all_upper(s),
    ensures
        col_val(s) >= 0,
    decreases s.len(),
{
    if s.len() > 0 {
        assert(all_upper(s.drop_last()));
        lemma_col_val_nonneg(s.drop_last());
    }
}

proof fn lemma_digits_val_nonneg(s: Seq<u8>)
    requires
        all_digits(s),
    ensures
        digits_val(s) >= 0,
    decreases s.len(),
{
    if s.len() > 0 {
        assert(all_digits(s.drop_last()));
        lemma_digits_val_nonneg(s.drop_last());
    }
}

/// A longer letter string never has a smaller value than its prefix.
proof fn lemma_col_val_prefix(s: Seq<u8>, j: int)
    requires
        all_upper(s),
        0 <= j <= s.len(),
    ensures
        col_val(s) >= col_val(s.take(j)),
    decreases s.len() - j,
{
    if j < s.len() {
        lemma_col_val_prefix(s, j + 1);
        assert(s.take(j + 1).drop_last() =~= s.take(j));
        assert(all_upper(s.take(j + 1)));
        lemma_col_val_nonneg(s.take(j));
        assert(col_val(s.take(j + 1)) == col_val(s.take(j)) * 26 + (s[j] - LET_A + 1));
    } else {
        assert(s.take(j) =~= s);
    }
}

/// A longer digit string never has a smaller value than its prefix.
proof fn lemma_digits_val_prefix(s: Seq<u8>, j: int)
    requires
        all_digits(s),
        0 <= j <= s.len(),
    ensures
        digits_val(s) >= digits_val(s.take(j)),
    decreases s.len() - j,
{
    if j < s.len() {
        lemma_digits_val_prefix(s, j + 1);
        assert(s.take(j + 1).drop_last() =~= s.take(j));
        assert(all_digits(s.take(j + 1)));
        lemma_digits_val_nonneg(s.take(j));
        assert(digits_val(s.take(j + 1)) == digits_val(s.take(j)) * 10 + (s[j] - DIG_0));
    } else {
        assert(s.take(j) =~= s);
    }
}

/// Decodes a column-letter string; `None` on a non-letter or a value
/// beyond `u32::MAX`.
pub fn col_letters_to_index(s: &[u8]) -> (r: Option<u32>)
    ensures
        r == spec_col_index(s@),
{
    let mut n: u64 = 0;
    let mut i: usize = 0;
    while i < s.len()
        invariant
            0 <= i <= s@.len(),
            all_upper(s@.take(i as int)),
            n == col_val(s@.take(i as int)),
            n <= u32::MAX,
        decreases s@.len() - i,
    {
        let b = s[i];
        if !(LET_A <= b && b <= LET_Z) {
            assert(!is_upper(s@[i as int]));
            return Option::None;
        }
        assert(s@.take(i + 1).drop_last() =~= s@.take(i as int));
        n = n * 26 + (b - LET_A + 1) as u64;
        assert(n == col_val(s@.take(i + 1)));
        i = i + 1;
        if n > u32::MAX as u64 {
            proof {
                if all_upper(s@) {
                    lemma_col_val_prefix(s@, i as int);
                }
            }
            return Option::None;
        }
    }
    proof {
        assert(s@.take(i as int) =~= s@);
    }
    Option::Some(n as u32)
}

/// Parses a decimal digit string; `None` when empty, on a non-digit, or
/// on a value beyond `u32::MAX`.
pub fn parse_row_number(s: &[u8]) -> (r: Option<u32>)
    ensures
        r == spec_parse_u32(s@),
{
    if s.len() == 0 {
        return Option::None;
    }
    let mut n: u64 = 0;
    let mut i: usize = 0;
    while i < s.len()
        invariant
            0 <= i <= s@.len(),
            all_digits(s@.take(i as int)),
            n == digits_val(s@.take(i as int)),
            n <= u32::MAX,
        decreases s@.len() - i,
    {
        let b = s[i];
        if !(DIG_0 <= b && b <= DIG_9) {
            assert(!is_ascii_digit(s@[i as int]));
            return Option::None;
        }
        assert(s@.take(i + 1).drop_last() =~= s@.take(i as int));
        n = n * 10 + (b - DIG_0) as u64;
        assert(n == digits_val(s@.take(i + 1)));
        i = i + 1;
        if n > u32::MAX as u64 {
            proof {
                if all_digits(s@) {
                    lemma_digits_val_prefix(s@, i as int);
                }
            }
            return Option::None;
        }
    }
    proof {
        assert(s@.take(i as int) =~= s@);
    }
    Option::Some(n as u32)
}

/// Encodes a column index as its letter string, e.g. `1` to `A`,
/// `27` to `AA`.
pub fn encode_column(idx: u32) -> (r: Vec<u8>)
    requires
        idx >= 1,
    ensures
        r@ == spec_encode_col(idx as int),
    decreases idx,
{
    let q = (idx - 1) / 26;
    let rem = ((idx - 1) % 26) as u8;
    let mut s: Vec<u8> = if q == 0 {
        Vec::new()
    } else {
        assert(q < idx) by (nonlinear_arith)
            requires
                idx >= 1,
                q == (idx - 1) / 26,
        ;
        encode_column(q)
    };
    proof {
        assert(spec_encode_col(0) =~= Seq::<u8>::empty());
        assert(s@ == spec_encode_col(q as int));
    }
    s.push(LET_A + rem);
    proof {
        let ii = idx as int;
        assert(q as int == (ii - 1) / 26);
        assert(spec_encode_col(ii) == spec_encode_col((ii - 1) / 26).push(
            (LET_A + (ii - 1) % 26) as u8));
        assert(s@ =~= spec_encode_col(ii));
    }
    s
}

/// Writes a nonnegative integer in decimal.
pub fn format_u64(n: u64) -> (r: Vec<u8>)
    ensures
        r@ == spec_dec(n as int),
    decreases n,
{
    if n < 10 {
        let mut s: Vec<u8> = Vec::new();
        s.push(DIG_0 + n as u8);
        assert(s@ =~= spec_dec(n as int));
        s
    } else {
        let mut s = format_u64(n / 10);
        s.push(DIG_0 + (n % 10) as u8);
        assert(s@ =~= spec_dec(n as int));
        s
    }
}

/// Decodes a textual cell address such as `BC12` into its
/// `(column, row)` pair; `None` when there is no digit suffix, the
/// letter prefix is not all uppercase, the suffix is not all digits, or
/// either value does not fit.
pub fn decode_address(s: &[u8]) -> (r: Option<(u32, u32)>)
    ensures
        r == spec_decode_addr(s@),
{
    let mut p: usize = 0;
    while p < s.len() && !(DIG_0 <= s[p] && s[p] <= DIG_9)
        invariant
            0 <= p <= s@.len(),
            forall|k: int| 0 <= k < p ==> !is_ascii_digit(#[trigger] s@[k]),
            first_digit_at(s@, 0) == first_digit_at(s@, p as int),
        decreases s@.len() - p,
    {
        p = p + 1;
    }
    if p == s.len() {
        return Option::None;
    }
    let letters = vstd::slice::slice_subrange(s, 0, p);
    assert(letters@ =~= s@.take(p as int));
    let col = match col_letters_to_index(letters) {
        Option::Some(c) => c,
        Option::None => {
            return Option::None;
        },
    };
    let digits = vstd::slice::slice_subrange(s, p, s.len());
    assert(digits@ =~= s@.skip(p as int));
    let row = match parse_row_number(digits) {
        Option::Some(r) => r,
        Option::None => {
            return Option::None;
        },
    };
    Option::Some((col, row))
}

pub proof fn lemma_encode_col_shape(i: int)
    requires
        i >= 1,
    ensures
        all_upper(spec_encode_col(i)),
        spec_encode_col(i).len() >= 1,
        col_val(spec_encode_col(i)) == i,
    decreases i,
{
    let q = (i - 1) / 26;
    let rem = (i - 1) % 26;
    lemma_fundamental_div_mod(i - 1, 26);
    assert(0 <= rem < 26);
    let s = spec_encode_col(i);
    assert(s == spec_encode_col(q).push((LET_A + rem) as u8));
    assert(s.drop_last() =~= spec_encode_col(q));
    if q == 0 {
        assert(spec_encode_col(0) =~= Seq::<u8>::empty());
        assert(col_val(Seq::<u8>::empty()) == 0);
        assert(col_val(s.drop_last()) == 0);
        assert(col_val(s) == 0 * 26 + (s.last() - LET_A + 1));
        assert(col_val(s) == rem + 1);
        assert(rem + 1 == i);
    } else {
        assert(q < i) by (nonlinear_arith)
            requires
                i >= 1,
                q == (i - 1) / 26,
        ;
        lemma_encode_col_shape(q);
        assert(col_val(s) == q * 26 + rem + 1);
        assert(q * 26 + rem == i - 1);
    }
    assert forall|k: int| 0 <= k < s.len() implies is_upper(#[trigger] s[k]) by {
        if k < s.len() - 1 {
            assert(s[k] == spec_encode_col(q)[k]);
        }
    }
}

pub proof fn lemma_dec_shape(n: int)
    requires
        n >= 0,
    ensures
        all_digits(spec_dec(n)),
        spec_dec(n).len() >= 1,
        digits_val(spec_dec(n)) == n,
    decreases n,
{
    let s = spec_dec(n);
    if n < 10 {
        assert(s == seq![(DIG_0 + n) as u8]);
        assert(s.drop_last() =~= Seq::<u8>::empty());
        assert(digits_val(Seq::<u8>::empty()) == 0);
        assert(digits_val(s.drop_last()) == 0);
        assert(digits_val(s) == n);
    } else {
        let q = n / 10;
        let rem = n % 10;
        lemma_fundamental_div_mod(n, 10);
        assert(0 <= rem < 10);
        assert(q >= 1 && q < n) by (nonlinear_arith)
            requires
                n >= 10,
                q == n / 10,
                n == 10 * q + rem,
                0 <= rem < 10,
        ;
        lemma_dec_shape(q);
        assert(s == spec_dec(q).push((DIG_0 + rem) as u8));
        assert(s.drop_last() =~= spec_dec(q));
        assert(digits_val(s) == q * 10 + rem);
    }
    assert forall|k: int| 0 <= k < s.len() implies is_ascii_digit(#[trigger] s[k]) by {
        if n >= 10 && k < s.len() - 1 {
            assert(s[k] == spec_dec(n / 10)[k]);
        }
    }
}

proof fn lemma_first_digit_seek(s: Seq<u8>, i: int, p: int)
    requires
        0 <= i <= p < s.len(),
        is_ascii_digit(s[p]),
        forall|k: int| i <= k < p ==> !is_ascii_digit(#[trigger] s[k]),
    ensures
        first_digit_at(s, i) == Option::Some(p),
    decreases p - i,
{
    if i < p {
        lemma_first_digit_seek(s, i + 1, p);
    }
}

/// Codec round trip: for every column index and row number, the encoded
/// address `<letters><digits>` decodes back to the same pair.
pub proof fn lemma_codec_round_trip(col: u32, row: u32)
    requires
        col >= 1,
    ensures
        spec_decode_addr(spec_encode_col(col as int) + spec_dec(row as int))
            == Option::Some((col, row)),
{
    let letters = spec_encode_col(col as int);
    let digits = spec_dec(row as int);
    let s = letters + digits;
    lemma_encode_col_shape(col as int);
    lemma_dec_shape(row as int);
    let p = letters.len() as int;
    assert(is_ascii_digit(s[p]));
    assert forall|k: int| 0 <= k < p implies !is_ascii_digit(#[trigger] s[k]) by {
        assert(s[k] == letters[k]);
        assert(is_upper(letters[k]));
    }
    lemma_first_digit_seek(s, 0, p);
    assert(s.take(p) =~= letters);
    assert(s.skip(p) =~= digits);
    assert(spec_col_index(s.take(p)) == Option::Some(col));
    assert(spec_parse_u32(s.skip(p)) == Option::Some(row));
}

} // verus!
