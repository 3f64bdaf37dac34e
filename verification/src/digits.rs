//! Digit extraction and normalization shared by every document kind.
//!
//! The model: a raw input is an arbitrary character sequence; its extractable
//! digits are the ASCII decimal digit characters it holds, in order. Shorter
//! digit sequences are left-padded with zeros to the document width; the
//! canonical textual form is the digit characters left-padded with `'0'`.

use vstd::prelude::*;

verus! {

/// True when `c` is an ASCII decimal digit character.
pub open spec fn is_digit(c: char) -> bool {
    48 <= c as int <= 57
}

/// Numeric value of an ASCII digit character.
pub open spec fn digit_val(c: char) -> int {
    c as int - 48
}

/// ASCII digit character with numeric value `v`, for `v` in `0 ..= 9`.
pub open spec fn digit_char(v: int) -> char {
    if v == 0 {
        '0'
    } else if v == 1 {
        '1'
    } else if v == 2 {
        '2'
    } else if v == 3 {
        '3'
    } else if v == 4 {
        '4'
    } else if v == 5 {
        '5'
    } else if v == 6 {
        '6'
    } else if v == 7 {
        '7'
    } else if v == 8 {
        '8'
    } else {
        '9'
    }
}

/// The ASCII digit characters of `s`, in order, with everything else removed.
pub open spec fn digit_chars(s: Seq<char>) -> Seq<char>
    decreases s.len(),
{
    if s.len() == 0 {
        Seq::empty()
    } else {
        let rest = digit_chars(s.drop_last());
        if is_digit(s.last()) {
            rest.push(s.last())
        } else {
            rest
        }
    }
}

/// The numeric values of the ASCII digit characters of `s`, in order.
pub open spec fn digit_values(s: Seq<char>) -> Seq<u8>
    decreases s.len(),
{
    if s.len() == 0 {
        Seq::empty()
    } else {
        let rest = digit_values(s.drop_last());
        if is_digit(s.last()) {
            rest.push(digit_val(s.last()) as u8)
        } else {
            rest
        }
    }
}

/// `ds` left-padded with zero digits to length `n`; unchanged when already
/// at least that long.
pub open spec fn left_pad(ds: Seq<u8>, n: int) -> Seq<u8> {
    if ds.len() >= n {
        ds
    } else {
        Seq::new((n - ds.len()) as nat, |i: int| 0u8) + ds
    }
}

/// `cs` left-padded with `'0'` characters to length `n`; unchanged when
/// already at least that long.
pub open spec fn zero_pad_chars(cs: Seq<char>, n: int) -> Seq<char> {
    if cs.len() >= n {
        cs
    } else {
        Seq::new((n - cs.len()) as nat, |i: int| '0') + cs
    }
}

/// True when every digit of `ds` equals the first one.
pub open spec fn all_equal(ds: Seq<u8>) -> bool {
    forall|i: int| 0 <= i < ds.len() ==> #[trigger] ds[i] == ds[0]
}

/// The check digit derived from a weighted sum: `11 - (sum mod 11)`, with
/// results of 10 and 11 mapped to 0.
pub open spec fn check_digit(sum: int) -> u8 {
    let m = 11 - sum % 11;
    if 0 <= m <= 9 {
        m as u8
    } else {
        0u8
    }
}

/// Extracts the digit characters of `document` as numeric values, in order.
pub fn extract_digits(document: &str) -> (r: Vec<u8>)
    ensures
        r@ == digit_values(document@),
{
    let len = document.unicode_len();
    let mut r: Vec<u8> = Vec::new();
    let mut i: usize = 0;
    while i < len
        invariant
            i <= len,
            len == document@.len(),
            r@ == digit_values(document@.subrange(0, i as int)),
        decreases len - i,
    {
        let c = document.get_char(i);
        proof {
            assert(document@.subrange(0, i + 1 as int).drop_last() =~= document@.subrange(
                0,
                i as int,
            ));
            assert(document@.subrange(0, i + 1 as int).last() == c);
        }
        let u = c as u32;
        if 48 <= u && u <= 57 {
            r.push((u - 48) as u8);
        }
        i += 1;
    }
    proof {
        assert(document@.subrange(0, len as int) =~= document@);
    }
    r
}

/// Left-pads `digits` with zero digits to length `n`.
pub(crate) fn pad_digits(digits: &Vec<u8>, n: usize) -> (r: Vec<u8>)
    requires
        digits@.len() <= n,
    ensures
        r@ == left_pad(digits@, n as int),
{
    let mut r: Vec<u8> = Vec::new();
    let pad = n - digits.len();
    let mut i: usize = 0;
    while i < pad
        invariant
            i <= pad,
            r@ =~= Seq::new(i as nat, |j: int| 0u8),
        decreases pad - i,
    {
        r.push(0);
        i += 1;
    }
    let mut k: usize = 0;
    while k < digits.len()
        invariant
            k <= digits@.len(),
            pad == n - digits@.len(),
            r@ =~= Seq::new(pad as nat, |j: int| 0u8) + digits@.subrange(0, k as int),
        decreases digits@.len() - k,
    {
        r.push(digits[k]);
        k += 1;
    }
    proof {
        assert(digits@.subrange(0, digits@.len() as int) =~= digits@);
        if digits@.len() >= n {
            assert(r@ =~= digits@);
        } else {
            assert(r@ =~= Seq::new((n - digits@.len()) as nat, |j: int| 0u8) + digits@);
        }
    }
    r
}

/// True when every digit of `ds` equals the first one.
pub(crate) fn all_equal_digits(ds: &Vec<u8>) -> (r: bool)
    requires
        ds@.len() > 0,
    ensures
        r == all_equal(ds@),
{
    let first = ds[0];
    let mut i: usize = 1;
    while i < ds.len()
        invariant
            1 <= i <= ds@.len(),
            first == ds@[0],
            forall|j: int| 0 <= j < i ==> #[trigger] ds@[j] == ds@[0],
        decreases ds@.len() - i,
    {
        if ds[i] != first {
            return false;
        }
        i += 1;
    }
    true
}

/// The one-character string holding the ASCII digit of value `d`.
fn digit_str(d: u8) -> (r: &'static str)
    requires
        d <= 9,
    ensures
        r@ =~= seq![digit_char(d as int)],
{
    proof {
        reveal_strlit("0");
        reveal_strlit("1");
        reveal_strlit("2");
        reveal_strlit("3");
        reveal_strlit("4");
        reveal_strlit("5");
        reveal_strlit("6");
        reveal_strlit("7");
        reveal_strlit("8");
        reveal_strlit("9");
    }
    match d {
        0 => "0",
        1 => "1",
        2 => "2",
        3 => "3",
        4 => "4",
        5 => "5",
        6 => "6",
        7 => "7",
        8 => "8",
        _ => "9",
    }
}

/// Lengths of the digit characters and the digit values of `s` agree, every
/// extracted character is a digit, and each value is the character's.
pub proof fn lemma_digit_chars_values(s: Seq<char>)
    ensures
        digit_chars(s).len() == digit_values(s).len(),
        forall|i: int|
            0 <= i < digit_chars(s).len() ==> is_digit(#[trigger] digit_chars(s)[i]),
        forall|i: int|
            0 <= i < digit_chars(s).len() ==> (#[trigger] digit_values(s)[i]) as int == digit_val(
                digit_chars(s)[i],
            ),
        forall|i: int| 0 <= i < digit_values(s).len() ==> #[trigger] digit_values(s)[i] <= 9,
    decreases s.len(),
{
    if s.len() > 0 {
        lemma_digit_chars_values(s.drop_last());
    }
}

/// On a sequence made only of digit characters, extraction changes nothing.
pub proof fn lemma_digit_chars_identity(s: Seq<char>)
    requires
        forall|i: int| 0 <= i < s.len() ==> is_digit(#[trigger] s[i]),
    ensures
        digit_chars(s) == s,
    decreases s.len(),
{
    if s.len() == 0 {
        assert(digit_chars(s) =~= s);
    } else {
        lemma_digit_chars_identity(s.drop_last());
        assert(digit_chars(s) =~= s);
    }
}

/// Digit extraction distributes over concatenation.
pub proof fn lemma_digit_extraction_concat(a: Seq<char>, b: Seq<char>)
    ensures
        digit_chars(a + b) == digit_chars(a) + digit_chars(b),
        digit_values(a + b) == digit_values(a) + digit_values(b),
    decreases b.len(),
{
    if b.len() == 0 {
        assert(a + b =~= a);
        assert(digit_chars(a) + digit_chars(b) =~= digit_chars(a));
        assert(digit_values(a) + digit_values(b) =~= digit_values(a));
    } else {
        lemma_digit_extraction_concat(a, b.drop_last());
        assert((a + b).drop_last() =~= a + b.drop_last());
        assert((a + b).last() == b.last());
        assert(digit_chars(a + b) =~= digit_chars(a) + digit_chars(b));
        assert(digit_values(a + b) =~= digit_values(a) + digit_values(b));
    }
}

/// Digit extraction is idempotent: extracting from what was already
/// extracted changes nothing, in characters and in values alike.
pub proof fn lemma_digit_extraction_idempotent(s: Seq<char>)
    ensures
        digit_chars(digit_chars(s)) == digit_chars(s),
        digit_values(digit_chars(s)) == digit_values(s),
{
    let cs = digit_chars(s);
    lemma_digit_chars_values(s);
    lemma_digit_chars_identity(cs);
    lemma_digit_chars_values(cs);
    assert(digit_values(cs) =~= digit_values(s)) by {
        assert forall|i: int| 0 <= i < cs.len() implies digit_values(cs)[i] == digit_values(s)[i]
        by {
            assert(digit_values(cs)[i] as int == digit_val(digit_chars(cs)[i]));
            assert(digit_values(s)[i] as int == digit_val(cs[i]));
        }
    }
}

/// A run of `k` `'0'` characters extracts to `k` zero digit values.
pub proof fn lemma_zero_run(k: nat)
    ensures
        digit_chars(Seq::new(k, |i: int| '0')) == Seq::new(k, |i: int| '0'),
        digit_values(Seq::new(k, |i: int| '0')) == Seq::new(k, |i: int| 0u8),
    decreases k,
{
    let cs = Seq::new(k, |i: int| '0');
    lemma_digit_chars_identity(cs);
    if k == 0 {
        assert(digit_values(cs) =~= Seq::new(k, |i: int| 0u8));
    } else {
        lemma_zero_run((k - 1) as nat);
        assert(cs.drop_last() =~= Seq::new((k - 1) as nat, |i: int| '0'));
        assert(digit_values(cs) =~= Seq::new(k, |i: int| 0u8));
    }
}

/// Formatting returns an already-canonical digit string unchanged: a string
/// of exactly `n` digit characters is its own canonical form at width `n`.
pub proof fn lemma_format_canonical_identity(s: Seq<char>, n: int)
    requires
        s.len() == n,
        forall|i: int| 0 <= i < s.len() ==> is_digit(#[trigger] s[i]),
    ensures
        zero_pad_chars(digit_chars(s), n) == s,
{
    lemma_digit_chars_identity(s);
}

/// Formatting is idempotent: canonicalizing an already canonicalized input
/// at the same width gives it back unchanged, whatever the raw input was.
pub proof fn lemma_format_idempotent(s: Seq<char>, n: int)
    ensures
        zero_pad_chars(digit_chars(zero_pad_chars(digit_chars(s), n)), n) == zero_pad_chars(
            digit_chars(s),
            n,
        ),
{
    let cs = digit_chars(s);
    let formatted = zero_pad_chars(cs, n);
    lemma_digit_chars_values(s);
    if cs.len() >= n {
        lemma_digit_chars_identity(cs);
    } else {
        let zeros = Seq::new((n - cs.len()) as nat, |i: int| '0');
        lemma_zero_run((n - cs.len()) as nat);
        lemma_digit_extraction_concat(zeros, cs);
        lemma_digit_chars_values(cs);
        lemma_digit_chars_identity(cs);
        assert(digit_chars(formatted) =~= formatted);
    }
}

/// The canonical, left-zero-padded digit string of `document` at width `width`.
pub(crate) fn canonical_string(document: &str, width: usize) -> (r: String)
    ensures
        r@ == zero_pad_chars(digit_chars(document@), width as int),
{
    let digits = extract_digits(document);
    proof {
        lemma_digit_chars_values(document@);
    }
    let mut r = String::new();
    if digits.len() < width {
        let pad = width - digits.len();
        let mut i: usize = 0;
        while i < pad
            invariant
                i <= pad,
                r@ =~= Seq::new(i as nat, |j: int| '0'),
            decreases pad - i,
        {
            r.append("0");
            proof {
                assert("0"@ =~= seq!['0']) by {
                    reveal_strlit("0");
                }
            }
            i += 1;
        }
    }
    let ghost pad_part = r@;
    let mut k: usize = 0;
    while k < digits.len()
        invariant
            k <= digits@.len(),
            digits@ == digit_values(document@),
            digit_chars(document@).len() == digit_values(document@).len(),
            forall|i: int|
                0 <= i < digit_chars(document@).len() ==> is_digit(
                    #[trigger] digit_chars(document@)[i],
                ),
            forall|i: int|
                0 <= i < digit_chars(document@).len() ==> (#[trigger] digit_values(
                    document@,
                )[i]) as int == digit_val(digit_chars(document@)[i]),
            r@ =~= pad_part + digit_chars(document@).subrange(0, k as int),
        decreases digits@.len() - k,
    {
        let d = digits[k];
        proof {
            assert(d as int == digit_val(digit_chars(document@)[k as int]));
            assert(digit_char(d as int) == digit_chars(document@)[k as int]);
        }
        r.append(digit_str(d));
        k += 1;
    }
    proof {
        let cs = digit_chars(document@);
        assert(cs.subrange(0, cs.len() as int) =~= cs);
        if cs.len() >= width {
            assert(r@ =~= cs);
        } else {
            assert(r@ =~= Seq::new((width - cs.len()) as nat, |j: int| '0') + cs);
        }
    }
    r
}

} // verus!
