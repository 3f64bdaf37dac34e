//! The Brazilian corporate document (CNPJ): a 14-digit identifier whose two
//! trailing check digits are weighted modular sums of the digits before them,
//! with weights cycling through 2 ..= 9.

use crate::digits::{
    all_equal, all_equal_digits, canonical_string, check_digit, digit_chars, digit_val,
    digit_values, extract_digits, is_digit, left_pad, lemma_digit_chars_identity,
    lemma_digit_chars_values, lemma_digit_extraction_concat, lemma_digit_extraction_idempotent,
    lemma_zero_run, pad_digits, zero_pad_chars,
};
use crate::Document;
use vstd::prelude::*;
use vstd::slice::slice_index_get;
use vstd::slice::slice_subrange;

verus! {

/// Width of a canonical CNPJ.
const CNPJ_LENGTH: usize = 14;

/// The weighted digit sum of `ds` taken as a slice of length `len`: the digit
/// at position `i` carries weight `(len - i - 1) % 8 + 2`, cycling 2 ..= 9.
pub open spec fn cnpj_sum(ds: Seq<u8>, len: int) -> int
    decreases ds.len(),
{
    if ds.len() == 0 {
        0
    } else {
        cnpj_sum(ds.drop_last(), len) + ((len - (ds.len() - 1) - 1) % 8 + 2) * (ds.last() as int)
    }
}

/// The check digit the CNPJ scheme derives from the digits `ds`.
pub open spec fn cnpj_check_digit(ds: Seq<u8>) -> u8 {
    check_digit(cnpj_sum(ds, ds.len() as int))
}

/// Validity of a 14-digit sequence: not all digits equal, and both check
/// digits match the weighted sums of the digits before them.
pub open spec fn spec_cnpj_valid_digits(ds: Seq<u8>) -> bool {
    &&& !all_equal(ds)
    &&& cnpj_check_digit(ds.subrange(0, 12)) == ds[12]
    &&& cnpj_check_digit(ds.subrange(0, 13)) == ds[13]
}

/// Validity of a raw input: at most 14 extractable digits, and the sequence
/// left-padded with zeros to 14 digits passes the check-digit scheme.
pub open spec fn spec_cnpj_valid(s: Seq<char>) -> bool {
    &&& digit_values(s).len() <= 14
    &&& spec_cnpj_valid_digits(left_pad(digit_values(s), 14))
}

/// The canonical form of a raw input: its digit characters, left-padded with
/// `'0'` to width 14.
pub open spec fn spec_cnpj_canonical(s: Seq<char>) -> Seq<char> {
    zero_pad_chars(digit_chars(s), 14)
}

/// Represents the Brazilian document CNPJ, which uniquely identifies a
/// Brazilian company. A value always stores the canonical 14-digit string;
/// it is immutable after construction and freely shareable across readers.
#[derive(Clone, Debug)]
pub struct Cnpj(String);

/// The check digit over the first `len` digits of a CNPJ: the weighted sum
/// with weights `(len - i - 1) % 8 + 2`, reduced modulo 11, subtracted from
/// 11, with results of 10 and 11 mapped to 0.
pub fn next(digits: &[u8], len: usize) -> (r: u8)
    requires
        digits@.len() == len,
        len <= 13,
    ensures
        r == cnpj_check_digit(digits@),
{
    let mut sum: usize = 0;
    let mut i: usize = 0;
    while i < len
        invariant
            i <= len,
            digits@.len() == len,
            len <= 13,
            sum == cnpj_sum(digits@.subrange(0, i as int), len as int),
            sum <= 2295 * i,
        decreases len - i,
    {
        let d = *slice_index_get(digits, i);
        let w = (len - i - 1) % 8 + 2;
        proof {
            assert(w * (d as int) <= 2295) by (nonlinear_arith)
                requires
                    2 <= w <= 9,
                    d as int <= 255,
            ;
            assert(digits@.subrange(0, i + 1 as int).drop_last() =~= digits@.subrange(0, i as int));
            assert(digits@.subrange(0, i + 1 as int).last() == digits@[i as int]);
        }
        sum = sum + w * (d as usize);
        i += 1;
    }
    proof {
        assert(digits@.subrange(0, len as int) =~= digits@);
    }
    let m = 11 - sum % 11;
    if m <= 9 {
        m as u8
    } else {
        0
    }
}

/// The canonical form of a raw input: mask characters removed and the digit
/// string left-padded with `'0'` to width 14.
pub fn format_cnpj(document: &str) -> (r: String)
    ensures
        r@ == spec_cnpj_canonical(document@),
{
    canonical_string(document, CNPJ_LENGTH)
}

impl View for Cnpj {
    type V = Seq<char>;

    /// The digit string stored by this value.
    closed spec fn view(&self) -> Seq<char> {
        self.0@
    }
}

impl Document for Cnpj {
    fn new(document: &str) -> (result: Option<Self>)
        ensures
            result is Some <==> spec_cnpj_valid(document@),
            result matches Some(v) ==> v@ == spec_cnpj_canonical(document@),
    {
        if Self::validate(document) {
            Some(Cnpj(format_cnpj(document)))
        } else {
            None
        }
    }

    fn validate(document: &str) -> (result: bool)
        ensures
            result == spec_cnpj_valid(document@),
    {
        let digits = extract_digits(document);
        if digits.len() > CNPJ_LENGTH {
            return false;
        }
        let padded = pad_digits(&digits, CNPJ_LENGTH);
        if all_equal_digits(&padded) {
            return false;
        }
        let first = next(slice_subrange(padded.as_slice(), 0, CNPJ_LENGTH - 2), CNPJ_LENGTH - 2);
        if first != padded[CNPJ_LENGTH - 2] {
            return false;
        }
        let second = next(slice_subrange(padded.as_slice(), 0, CNPJ_LENGTH - 1), CNPJ_LENGTH - 1);
        second == padded[CNPJ_LENGTH - 1]
    }

    fn as_str(&self) -> (result: &str)
        ensures
            result@ == self@,
    {
        self.0.as_str()
    }
}

/// A raw input with more than 14 extractable digits is never a valid CNPJ.
pub proof fn lemma_cnpj_overlong_invalid(s: Seq<char>)
    requires
        digit_values(s).len() > 14,
    ensures
        !spec_cnpj_valid(s),
{
}

/// A 14-character digit string whose digits are all equal is never a valid
/// CNPJ, even where the check-digit arithmetic alone would accept it.
pub proof fn lemma_cnpj_all_equal_invalid(s: Seq<char>)
    requires
        s.len() == 14,
        forall|i: int| 0 <= i < s.len() ==> is_digit(#[trigger] s[i]),
        forall|i: int| 0 <= i < s.len() ==> #[trigger] s[i] == s[0],
    ensures
        !spec_cnpj_valid(s),
{
    lemma_digit_chars_identity(s);
    lemma_digit_chars_values(s);
    let ds = digit_values(s);
    assert(left_pad(ds, 14) == ds);
    assert forall|i: int| 0 <= i < ds.len() implies #[trigger] ds[i] == ds[0] by {
        assert(ds[i] as int == digit_val(s[i]));
        assert(ds[0] as int == digit_val(s[0]));
    }
    assert(all_equal(ds));
}

/// Masking invariance: a raw input validates exactly as the input with every
/// non-digit character stripped does.
pub proof fn lemma_cnpj_masking_invariance(s: Seq<char>)
    ensures
        spec_cnpj_valid(s) == spec_cnpj_valid(digit_chars(s)),
{
    lemma_digit_extraction_idempotent(s);
}

/// Left-pad equivalence: prepending `'0'` characters to an input that stays
/// within 14 digits changes nothing about its validity.
pub proof fn lemma_cnpj_left_pad_equivalence(s: Seq<char>, k: nat)
    requires
        digit_values(s).len() + k <= 14,
    ensures
        spec_cnpj_valid(Seq::new(k, |i: int| '0') + s) == spec_cnpj_valid(s),
{
    let zeros = Seq::new(k, |i: int| '0');
    lemma_zero_run(k);
    lemma_digit_extraction_concat(zeros, s);
    let ds = digit_values(s);
    assert(digit_values(zeros + s) =~= Seq::new(k, |i: int| 0u8) + ds);
    assert(left_pad(digit_values(zeros + s), 14) =~= left_pad(ds, 14));
}

/// Round trip: the canonical form of a valid raw input has exactly 14
/// characters, all of them digits, and is itself a valid CNPJ.
pub proof fn lemma_cnpj_round_trip(s: Seq<char>)
    requires
        spec_cnpj_valid(s),
    ensures
        spec_cnpj_canonical(s).len() == 14,
        forall|i: int| 0 <= i < 14 ==> is_digit(#[trigger] spec_cnpj_canonical(s)[i]),
        spec_cnpj_valid(spec_cnpj_canonical(s)),
{
    let ds = digit_values(s);
    let cs = digit_chars(s);
    let canonical = spec_cnpj_canonical(s);
    lemma_digit_chars_values(s);
    lemma_digit_extraction_idempotent(s);
    if cs.len() >= 14 {
        assert(canonical == cs);
        assert(left_pad(digit_values(canonical), 14) == ds);
        assert(left_pad(ds, 14) == ds);
    } else {
        let k = (14 - cs.len()) as nat;
        let zeros = Seq::new(k, |i: int| '0');
        lemma_zero_run(k);
        lemma_digit_extraction_concat(zeros, cs);
        assert(digit_values(canonical) =~= left_pad(ds, 14));
        assert(left_pad(digit_values(canonical), 14) == digit_values(canonical));
    }
}

} // verus!
