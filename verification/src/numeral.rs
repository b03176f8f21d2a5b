//! Decimal text encoding of counter values.
//!
//! The counter is persisted as the decimal representation of a signed 32-bit
//! integer: an optional sign byte (`-` or, when read, `+`) followed by ASCII
//! digits. This module defines what such a byte sequence means and provides a
//! verified parser, a verified formatter producing the canonical
//! representation, and a verified trim of surrounding ASCII whitespace.

use vstd::prelude::*;

verus! {

/// The byte is an ASCII decimal digit.
pub open spec fn is_digit(b: u8) -> bool {
    48 <= b && b <= 57
}

/// Numeric value of an ASCII digit byte.
pub open spec fn digit_val(b: u8) -> int {
    b as int - 48
}

/// Every byte of the sequence is an ASCII digit.
pub open spec fn all_digits(s: Seq<u8>) -> bool {
    forall|i: int| 0 <= i < s.len() ==> is_digit(#[trigger] s[i])
}

/// Value of a sequence of digit bytes read as a base-10 numeral.
pub open spec fn digits_val(s: Seq<u8>) -> int
    decreases s.len(),
{
    if s.len() == 0 {
        0
    } else {
        digits_val(s.drop_last()) * 10 + digit_val(s.last())
    }
}

/// The digits of the literal: everything after a leading `-` or `+`, if any.
pub open spec fn magnitude_part(s: Seq<u8>) -> Seq<u8> {
    if s.len() > 0 && (s[0] == 45 || s[0] == 43) {
        s.subrange(1, s.len() as int)
    } else {
        s
    }
}

/// The literal starts with a `-` sign.
pub open spec fn is_negative(s: Seq<u8>) -> bool {
    s.len() > 0 && s[0] == 45
}

/// The sequence is a well-formed integer literal: an optional sign followed
/// by one or more ASCII digits and nothing else.
pub open spec fn is_int_literal(s: Seq<u8>) -> bool {
    magnitude_part(s).len() > 0 && all_digits(magnitude_part(s))
}

/// Mathematical value of a well-formed integer literal.
pub open spec fn int_literal_val(s: Seq<u8>) -> int {
    if is_negative(s) {
        -digits_val(magnitude_part(s))
    } else {
        digits_val(magnitude_part(s))
    }
}

/// The sequence is an integer literal whose value fits in an `i32`.
pub open spec fn parses_to_i32(s: Seq<u8>) -> bool {
    is_int_literal(s) && i32::MIN <= int_literal_val(s) <= i32::MAX
}

proof fn lemma_digits_val_nonneg(s: Seq<u8>)
    requires
        all_digits(s),
    ensures
        digits_val(s) >= 0,
    decreases s.len(),
{
    if s.len() > 0 {
        assert(all_digits(s.drop_last()));
        lemma_digits_val_nonneg(s.drop_last());
    }
}

/// Appending digits to a numeral never decreases its value.
proof fn lemma_digits_val_prefix_le(s: Seq<u8>, k: int)
    requires
        all_digits(s),
        0 <= k <= s.len(),
    ensures
        digits_val(s.subrange(0, k)) <= digits_val(s),
    decreases s.len() - k,
{
    if k < s.len() {
        assert(s.subrange(0, k + 1).drop_last() =~= s.subrange(0, k));
        assert(all_digits(s.subrange(0, k)));
        lemma_digits_val_nonneg(s.subrange(0, k));
        assert(digits_val(s.subrange(0, k)) <= digits_val(s.subrange(0, k + 1)));
        lemma_digits_val_prefix_le(s, k + 1);
    } else {
        assert(s.subrange(0, k) =~= s);
    }
}

/// Parse a byte sequence as a decimal `i32` literal: an optional `-` or `+`
/// sign followed by one or more ASCII digits, whose value fits in an `i32`.
/// Returns `None` exactly when the input is not such a literal.
pub fn parse_i32(s: &[u8]) -> (r: Option<i32>)
    ensures
        match r {
            Some(v) => parses_to_i32(s@) && v as int == int_literal_val(s@),
            None => !parses_to_i32(s@),
        },
{
    let len: usize = s.len();
    let mut start: usize = 0;
    let mut neg: bool = false;
    if len > 0 && (s[0] == 45 || s[0] == 43) {
        neg = s[0] == 45;
        start = 1;
    }
    proof {
        assert(magnitude_part(s@) =~= s@.subrange(start as int, len as int));
    }
    if start == len {
        return None;
    }
    let mut acc: u64 = 0;
    let mut i: usize = start;
    while i < len
        invariant
            start <= i <= len,
            len == s@.len(),
            acc <= 0x8000_0000,
            all_digits(s@.subrange(start as int, i as int)),
            acc as int == digits_val(s@.subrange(start as int, i as int)),
            magnitude_part(s@) == s@.subrange(start as int, len as int),
            neg == is_negative(s@),
        decreases len - i,
    {
        let b = s[i];
        if b < 48 || 57 < b {
            proof {
                assert(magnitude_part(s@)[i - start] == s@[i as int]);
                assert(!all_digits(magnitude_part(s@)));
            }
            return None;
        }
        let d: u64 = (b - 48) as u64;
        proof {
            assert(s@.subrange(start as int, i + 1).drop_last() =~= s@.subrange(
                start as int,
                i as int,
            ));
            assert(s@.subrange(start as int, i + 1).last() == s@[i as int]);
        }
        acc = acc * 10 + d;
        if acc > 0x8000_0000 {
            proof {
                if is_int_literal(s@) {
                    assert(magnitude_part(s@).subrange(0, i + 1 - start) =~= s@.subrange(
                        start as int,
                        i + 1,
                    ));
                    lemma_digits_val_prefix_le(magnitude_part(s@), i + 1 - start);
                }
            }
            return None;
        }
        i = i + 1;
    }
    if neg {
        if acc == 0x8000_0000 {
            Some(i32::MIN)
        } else {
            Some(-(acc as i32))
        }
    } else {
        if acc == 0x8000_0000 {
            None
        } else {
            Some(acc as i32)
        }
    }
}

/// Canonical digits of a non-negative value: no sign, no leading zeros.
pub open spec fn dec_digits(n: nat) -> Seq<u8>
    decreases n,
{
    if n < 10 {
        seq![(48 + n) as u8]
    } else {
        dec_digits(n / 10).push((48 + n % 10) as u8)
    }
}

/// Canonical decimal representation of a value: a `-` sign for negative
/// values, then the digits of the magnitude.
pub open spec fn dec_repr(v: int) -> Seq<u8> {
    if v < 0 {
        seq![45u8] + dec_digits((-v) as nat)
    } else {
        dec_digits(v as nat)
    }
}

fn push_dec_digits(n: u32, out: &mut Vec<u8>)
    ensures
        final(out)@ == old(out)@ + dec_digits(n as nat),
    decreases n,
{
    if n < 10 {
        out.push((48 + n) as u8);
        proof {
            assert(out@ =~= old(out)@ + dec_digits(n as nat));
        }
    } else {
        let q = n / 10;
        let r = n % 10;
        proof {
            assert(q < n) by (nonlinear_arith)
                requires
                    n >= 10,
                    q == n / 10,
            ;
        }
        push_dec_digits(q, out);
        out.push((48 + r) as u8);
        proof {
            assert((48 + r) as u8 == (48 + n as nat % 10) as u8);
            assert(out@ =~= old(out)@ + dec_digits(n as nat));
        }
    }
}

/// Format a value as its canonical decimal representation.
pub fn i32_to_dec(v: i32) -> (out: Vec<u8>)
    ensures
        out@ == dec_repr(v as int),
{
    let mut out: Vec<u8> = Vec::new();
    if v >= 0 {
        push_dec_digits(v as u32, &mut out);
        proof {
            assert(out@ =~= dec_repr(v as int));
        }
    } else {
        out.push(45);
        let m: u32 = (-(v as i64)) as u32;
        proof {
            assert(m as nat == (-(v as int)) as nat);
        }
        push_dec_digits(m, &mut out);
        proof {
            assert(out@ =~= dec_repr(v as int));
        }
    }
    out
}

proof fn lemma_dec_digits_shape(n: nat)
    ensures
        dec_digits(n).len() >= 1,
        all_digits(dec_digits(n)),
        is_digit(dec_digits(n)[0]),
    decreases n,
{
    if n >= 10 {
        lemma_dec_digits_shape(n / 10);
        assert(is_digit((48 + n % 10) as u8));
    }
}

proof fn lemma_dec_digits_val(n: nat)
    ensures
        digits_val(dec_digits(n)) == n,
    decreases n,
{
    if n < 10 {
        assert(digits_val(Seq::<u8>::empty()) == 0);
        assert(dec_digits(n).drop_last() =~= Seq::<u8>::empty());
    } else {
        lemma_dec_digits_val(n / 10);
        assert(dec_digits(n).drop_last() =~= dec_digits(n / 10));
        assert(n == (n / 10) * 10 + n % 10) by (nonlinear_arith);
    }
}

/// The byte is ASCII whitespace: space, tab, line feed, form feed or
/// carriage return.
pub open spec fn is_space(b: u8) -> bool {
    b == 32 || b == 9 || b == 10 || b == 12 || b == 13
}

/// The sequence with its leading whitespace removed.
pub open spec fn trim_front(s: Seq<u8>) -> Seq<u8>
    decreases s.len(),
{
    if s.len() > 0 && is_space(s[0]) {
        trim_front(s.subrange(1, s.len() as int))
    } else {
        s
    }
}

/// The sequence with its trailing whitespace removed.
pub open spec fn trim_back(s: Seq<u8>) -> Seq<u8>
    decreases s.len(),
{
    if s.len() > 0 && is_space(s.last()) {
        trim_back(s.drop_last())
    } else {
        s
    }
}

/// The sequence with surrounding whitespace removed.
pub open spec fn trimmed(s: Seq<u8>) -> Seq<u8> {
    trim_back(trim_front(s))
}

proof fn lemma_trim_front_at(s: Seq<u8>, lo: int)
    requires
        0 <= lo <= s.len(),
        forall|j: int| 0 <= j < lo ==> is_space(s[j]),
        lo == s.len() || !is_space(s[lo]),
    ensures
        trim_front(s) == s.subrange(lo, s.len() as int),
    decreases lo,
{
    if lo == 0 {
        assert(s.subrange(0, s.len() as int) =~= s);
    } else {
        let t = s.subrange(1, s.len() as int);
        lemma_trim_front_at(t, lo - 1);
        assert(t.subrange(lo - 1, t.len() as int) =~= s.subrange(lo, s.len() as int));
    }
}

proof fn lemma_trim_back_at(s: Seq<u8>, hi: int)
    requires
        0 <= hi <= s.len(),
        forall|j: int| hi <= j < s.len() ==> is_space(s[j]),
        hi == 0 || !is_space(s[hi - 1]),
    ensures
        trim_back(s) == s.subrange(0, hi),
    decreases s.len() - hi,
{
    if hi == s.len() {
        assert(s.subrange(0, hi) =~= s);
    } else {
        let t = s.drop_last();
        assert(t =~= s.subrange(0, s.len() - 1));
        lemma_trim_back_at(t, hi);
        assert(t.subrange(0, hi) =~= s.subrange(0, hi));
    }
}

fn is_space_byte(b: u8) -> (r: bool)
    ensures
        r == is_space(b),
{
    b == 32 || b == 9 || b == 10 || b == 12 || b == 13
}

/// Remove leading and trailing ASCII whitespace from a byte sequence.
pub fn trim_ascii(s: &[u8]) -> (out: Vec<u8>)
    ensures
        out@ == trimmed(s@),
{
    let len: usize = s.len();
    let mut lo: usize = 0;
    while lo < len && is_space_byte(s[lo])
        invariant
            0 <= lo <= len,
            len == s@.len(),
            forall|j: int| 0 <= j < lo ==> is_space(s@[j]),
        decreases len - lo,
    {
        lo = lo + 1;
    }
    proof {
        lemma_trim_front_at(s@, lo as int);
    }
    let mut hi: usize = len;
    while hi > lo && is_space_byte(s[hi - 1])
        invariant
            lo <= hi <= len,
            len == s@.len(),
            forall|j: int| hi <= j < len ==> is_space(s@[j]),
        decreases hi,
    {
        hi = hi - 1;
    }
    let front = vstd::slice::slice_subrange(s, lo, len);
    proof {
        assert(front@.subrange(0, hi - lo) =~= s@.subrange(lo as int, hi as int));
        lemma_trim_back_at(front@, hi - lo);
    }
    let kept = vstd::slice::slice_subrange(front, 0, hi - lo);
    vstd::slice::slice_to_vec(kept)
}

/// Law: formatting a value and parsing the result gives the value back. This
/// is what makes a persisted snapshot recoverable: the file content produced
/// for a value is a well-formed literal that reads back as that exact value.
pub proof fn lemma_dec_repr_round_trip(v: int)
    requires
        i32::MIN <= v <= i32::MAX,
    ensures
        parses_to_i32(dec_repr(v)),
        int_literal_val(dec_repr(v)) == v,
{
    if v >= 0 {
        lemma_dec_digits_shape(v as nat);
        lemma_dec_digits_val(v as nat);
        assert(magnitude_part(dec_repr(v)) =~= dec_repr(v));
    } else {
        let m = (-v) as nat;
        lemma_dec_digits_shape(m);
        lemma_dec_digits_val(m);
        assert(dec_repr(v)[0] == 45);
        assert(magnitude_part(dec_repr(v)) =~= dec_digits(m));
        assert(is_negative(dec_repr(v)));
    }
}

} // verus!
