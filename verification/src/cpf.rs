//! The Brazilian individual document (CPF): an 11-digit identifier whose two
//! trailing check digits are weighted modular sums of the digits before them.

use crate::digits::{
    all_equal, all_equal_digits, canonical_string, check_digit, digit_chars, digit_val,
    digit_values, extract_digits, is_digit, left_pad, lemma_digit_chars_identity,
    lemma_digit_chars_values, lemma_digit_extraction_concat, lemma_digit_extraction_idempotent,
    lemma_zero_run, pad_digits, zero_pad_chars,
};
use crate::Document;
use vstd::prelude::*;
use vstd::slice::slice_index_get;
use vstd::slice::slice_subrange;

verus! {

/// Width of a canonical CPF.
const CPF_LENGTH: usize = 11;

/// The weighted digit sum of `ds` taken as a slice of length `len`: the digit
/// at position `i` carries weight `len - i + 1`.
pub open spec fn cpf_sum(ds: Seq<u8>, len: int) -> int
    decreases ds.len(),
{
    if ds.len() == 0 {
        0
    } else {
        cpf_sum(ds.drop_last(), len) + (len - (ds.len() - 1) + 1) * (ds.last() as int)
    }
}

/// The check digit the CPF scheme derives from the digits `ds`.
pub open spec fn cpf_check_digit(ds: Seq<u8>) -> u8 {
    check_digit(cpf_sum(ds, ds.len() as int))
}

/// Validity of an 11-digit sequence: not all digits equal, and both check
/// digits match the weighted sums of the digits before them.
pub open spec fn spec_cpf_valid_digits(ds: Seq<u8>) -> bool {
    &&& !all_equal(ds)
    &&& cpf_check_digit(ds.subrange(0, 9)) == ds[9]
    &&& cpf_check_digit(ds.subrange(0, 10)) == ds[10]
}

/// Validity of a raw input: at most 11 extractable digits, and the sequence
/// left-padded with zeros to 11 digits passes the check-digit scheme.
pub open spec fn spec_cpf_valid(s: Seq<char>) -> bool {
    &&& digit_values(s).len() <= 11
    &&& spec_cpf_valid_digits(left_pad(digit_values(s), 11))
}

/// The canonical form of a raw input: its digit characters, left-padded with
/// `'0'` to width 11.
pub open spec fn spec_cpf_canonical(s: Seq<char>) -> Seq<char> {
    zero_pad_chars(digit_chars(s), 11)
}

/// Represents the Brazilian document CPF, which uniquely identifies a
/// Brazilian citizen. A value always stores the canonical 11-digit string;
/// it is immutable after construction and freely shareable across readers.
#[derive(Clone, Debug)]
pub struct Cpf(String);

/// The check digit over the first `len` digits of a CPF: the weighted sum
/// with weights `len - i + 1`, reduced modulo 11, subtracted from 11, with
/// results of 10 and 11 mapped to 0.
pub fn next(digits: &[u8], len: usize) -> (r: u8)
    requires
        digits@.len() == len,
        len <= 13,
    ensures
        r == cpf_check_digit(digits@),
{
    let mut sum: usize = 0;
    let mut i: usize = 0;
    while i < len
        invariant
            i <= len,
            digits@.len() == len,
            len <= 13,
            sum == cpf_sum(digits@.subrange(0, i as int), len as int),
            sum <= 3570 * i,
        decreases len - i,
    {
        let d = *slice_index_get(digits, i);
        let w = len - i + 1;
        proof {
            assert(w * (d as int) <= 3570) by (nonlinear_arith)
                requires
                    1 <= w <= 14,
                    d as int <= 255,
            ;
            assert(digits@.subrange(0, i + 1 as int).drop_last() =~= digits@.subrange(0, i as int));
            assert(digits@.subrange(0, i + 1 as int).last() == digits@[i as int]);
        }
        sum = sum + w * (d as usize);
        i += 1;
    }
    proof {
        assert(digits@.subrange(0, len as int) =~= digits@);
    }
    let m = 11 - sum % 11;
    if m <= 9 {
        m as u8
    } else {
        0
    }
}

/// The canonical form of a raw input: mask characters removed and the digit
/// string left-padded with `'0'` to width 11.
pub fn format_cpf(document: &str) -> (r: String)
    ensures
        r@ == spec_cpf_canonical(document@),
{
    canonical_string(document, CPF_LENGTH)
}

impl View for Cpf {
    type V = Seq<char>;

    /// The digit string stored by this value.
    closed spec fn view(&self) -> Seq<char> {
        self.0@
    }
}

impl Document for Cpf {
    fn new(document: &str) -> (result: Option<Self>)
        ensures
            result is Some <==> spec_cpf_valid(document@),
            result matches Some(v) ==> v@ == spec_cpf_canonical(document@),
    {
        if Self::validate(document) {
            Some(Cpf(format_cpf(document)))
        } else {
            None
        }
    }

    fn validate(document: &str) -> (result: bool)
        ensures
            result == spec_cpf_valid(document@),
    {
        let digits = extract_digits(document);
        if digits.len() > CPF_LENGTH {
            return false;
        }
        let padded = pad_digits(&digits, CPF_LENGTH);
        if all_equal_digits(&padded) {
            return false;
        }
        let first = next(slice_subrange(padded.as_slice(), 0, CPF_LENGTH - 2), CPF_LENGTH - 2);
        if first != padded[CPF_LENGTH - 2] {
            return false;
        }
        let second = next(slice_subrange(padded.as_slice(), 0, CPF_LENGTH - 1), CPF_LENGTH - 1);
        second == padded[CPF_LENGTH - 1]
    }

    fn as_str(&self) -> (result: &str)
        ensures
            result@ == self@,
    {
        self.0.as_str()
    }
}

/// A raw input with more than 11 extractable digits is never a valid CPF.
pub proof fn lemma_cpf_overlong_invalid(s: Seq<char>)
    requires
        digit_values(s).len() > 11,
    ensures
        !spec_cpf_valid(s),
{
}

/// An 11-character digit string whose digits are all equal is never a valid
/// CPF, even where the check-digit arithmetic alone would accept it.
pub proof fn lemma_cpf_all_equal_invalid(s: Seq<char>)
    requires
        s.len() == 11,
        forall|i: int| 0 <= i < s.len() ==> is_digit(#[trigger] s[i]),
        forall|i: int| 0 <= i < s.len() ==> #[trigger] s[i] == s[0],
    ensures
        !spec_cpf_valid(s),
{
    lemma_digit_chars_identity(s);
    lemma_digit_chars_values(s);
    let ds = digit_values(s);
    assert(left_pad(ds, 11) == ds);
    assert forall|i: int| 0 <= i < ds.len() implies #[trigger] ds[i] == ds[0] by {
        assert(ds[i] as int == digit_val(s[i]));
        assert(ds[0] as int == digit_val(s[0]));
    }
    assert(all_equal(ds));
}

/// Masking invariance: a raw input validates exactly as the input with every
/// non-digit character stripped does.
pub proof fn lemma_cpf_masking_invariance(s: Seq<char>)
    ensures
        spec_cpf_valid(s) == spec_cpf_valid(digit_chars(s)),
{
    lemma_digit_extraction_idempotent(s);
}

/// Left-pad equivalence: prepending `'0'` characters to an input that stays
/// within 11 digits changes nothing about its validity.
pub proof fn lemma_cpf_left_pad_equivalence(s: Seq<char>, k: nat)
    requires
        digit_values(s).len() + k <= 11,
    ensures
        spec_cpf_valid(Seq::new(k, |i: int| '0') + s) == spec_cpf_valid(s),
{
    let zeros = Seq::new(k, |i: int| '0');
    lemma_zero_run(k);
    lemma_digit_extraction_concat(zeros, s);
    let ds = digit_values(s);
    assert(digit_values(zeros + s) =~= Seq::new(k, |i: int| 0u8) + ds);
    assert(left_pad(digit_values(zeros + s), 11) =~= left_pad(ds, 11));
}

/// Round trip: the canonical form of a valid raw input has exactly 11
/// characters, all of them digits, and is itself a valid CPF.
pub proof fn lemma_cpf_round_trip(s: Seq<char>)
    requires
        spec_cpf_valid(s),
    ensures
        spec_cpf_canonical(s).len() == 11,
        forall|i: int| 0 <= i < 11 ==> is_digit(#[trigger] spec_cpf_canonical(s)[i]),
        spec_cpf_valid(spec_cpf_canonical(s)),
{
    let ds = digit_values(s);
    let cs = digit_chars(s);
    let canonical = spec_cpf_canonical(s);
    lemma_digit_chars_values(s);
    lemma_digit_extraction_idempotent(s);
    if cs.len() >= 11 {
        assert(canonical == cs);
        assert(left_pad(digit_values(canonical), 11) == ds);
        assert(left_pad(ds, 11) == ds);
    } else {
        let k = (11 - cs.len()) as nat;
        let zeros = Seq::new(k, |i: int| '0');
        lemma_zero_run(k);
        lemma_digit_extraction_concat(zeros, cs);
        assert(digit_values(canonical) =~= left_pad(ds, 11));
        assert(left_pad(digit_values(canonical), 11) == digit_values(canonical));
    }
}

} // verus!
