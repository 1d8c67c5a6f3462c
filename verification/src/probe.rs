//! Parser for the resolution record that the image probe prints.
//!
//! The probe is asked for a fixed template of the form
//! `{ "width": W, "height": H }` with unsigned decimal numbers `W` and `H`;
//! the pipeline depends on exactly this shape and treats any deviation,
//! including a number too large for a dimension, as a parse failure.

use vstd::prelude::*;

use crate::utils::Resolution;

verus! {

/// ASCII code points of the bytes the record grammar is built from.
pub const B_SPACE: u8 = 32;

pub const B_TAB: u8 = 9;

pub const B_LF: u8 = 10;

pub const B_CR: u8 = 13;

pub const B_QUOTE: u8 = 34;

pub const B_COMMA: u8 = 44;

pub const B_COLON: u8 = 58;

pub const B_LBRACE: u8 = 123;

pub const B_RBRACE: u8 = 125;

pub const B_ZERO: u8 = 48;

pub const B_NINE: u8 = 57;

pub const B_W: u8 = 119;

pub const B_I: u8 = 105;

pub const B_D: u8 = 100;

pub const B_T: u8 = 116;

pub const B_H: u8 = 104;

pub const B_E: u8 = 101;

pub const B_G: u8 = 103;

/// Insignificant whitespace between the tokens of the record: space, tab,
/// line feed or carriage return.
pub open spec fn is_ws_b(b: u8) -> bool {
    b == B_SPACE || b == B_TAB || b == B_LF || b == B_CR
}

/// An ASCII decimal digit byte.
pub open spec fn is_digit_b(b: u8) -> bool {
    B_ZERO <= b <= B_NINE
}

pub open spec fn digit_val_b(b: u8) -> int {
    b - B_ZERO
}

/// The number written by a run of decimal digit bytes, most significant
/// first.
pub open spec fn digits_val_b(t: Seq<u8>) -> int
    decreases t.len(),
{
    if t.len() == 0 {
        0
    } else {
        digits_val_b(t.drop_last()) * 10 + digit_val_b(t.last())
    }
}

/// The first position at or after `i` that does not hold whitespace.
pub open spec fn skip_ws(s: Seq<u8>, i: int) -> int
    decreases s.len() - i,
{
    if 0 <= i < s.len() && is_ws_b(s[i]) {
        skip_ws(s, i + 1)
    } else {
        i
    }
}

/// The first position at or after `i` that does not hold a digit.
pub open spec fn digits_end(s: Seq<u8>, i: int) -> int
    decreases s.len() - i,
{
    if 0 <= i < s.len() && is_digit_b(s[i]) {
        digits_end(s, i + 1)
    } else {
        i
    }
}

/// The quoted key naming the width field starts at position `i`.
pub open spec fn width_key_at(s: Seq<u8>, i: int) -> bool {
    &&& 0 <= i
    &&& i + 7 <= s.len()
    &&& s[i] == B_QUOTE
    &&& s[i + 1] == B_W
    &&& s[i + 2] == B_I
    &&& s[i + 3] == B_D
    &&& s[i + 4] == B_T
    &&& s[i + 5] == B_H
    &&& s[i + 6] == B_QUOTE
}

/// The quoted key naming the height field starts at position `i`.
pub open spec fn height_key_at(s: Seq<u8>, i: int) -> bool {
    &&& 0 <= i
    &&& i + 8 <= s.len()
    &&& s[i] == B_QUOTE
    &&& s[i + 1] == B_H
    &&& s[i + 2] == B_E
    &&& s[i + 3] == B_I
    &&& s[i + 4] == B_G
    &&& s[i + 5] == B_H
    &&& s[i + 6] == B_T
    &&& s[i + 7] == B_QUOTE
}

/// A number field read at position `i`: at least one digit must be present
/// and the written value must fit in a dimension.
pub open spec fn number_at(s: Seq<u8>, i: int) -> bool {
    let j = digits_end(s, i);
    i < j && digits_val_b(s.subrange(i, j)) <= u32::MAX as int
}

pub open spec fn number_value(s: Seq<u8>, i: int) -> int {
    digits_val_b(s.subrange(i, digits_end(s, i)))
}

/// The resolution record the probe bytes spell, if they spell one: the two
/// keyed numbers inside braces, in this order, with nothing but whitespace
/// around the tokens.
pub open spec fn parse_probe(s: Seq<u8>) -> Option<Resolution> {
    let i0 = skip_ws(s, 0);
    if !(i0 < s.len() && s[i0] == B_LBRACE) {
        None
    } else {
        let i1 = skip_ws(s, i0 + 1);
        if !width_key_at(s, i1) {
            None
        } else {
            let i2 = skip_ws(s, i1 + 7);
            if !(i2 < s.len() && s[i2] == B_COLON) {
                None
            } else {
                let i3 = skip_ws(s, i2 + 1);
                if !number_at(s, i3) {
                    None
                } else {
                    let w = number_value(s, i3);
                    let i4 = skip_ws(s, digits_end(s, i3));
                    if !(i4 < s.len() && s[i4] == B_COMMA) {
                        None
                    } else {
                        let i5 = skip_ws(s, i4 + 1);
                        if !height_key_at(s, i5) {
                            None
                        } else {
                            let i6 = skip_ws(s, i5 + 8);
                            if !(i6 < s.len() && s[i6] == B_COLON) {
                                None
                            } else {
                                let i7 = skip_ws(s, i6 + 1);
                                if !number_at(s, i7) {
                                    None
                                } else {
                                    let h = number_value(s, i7);
                                    let i8 = skip_ws(s, digits_end(s, i7));
                                    if !(i8 < s.len() && s[i8] == B_RBRACE) {
                                        None
                                    } else if skip_ws(s, i8 + 1) != s.len() {
                                        None
                                    } else {
                                        Some(
                                            Resolution {
                                                width: w as u32,
                                                height: h as u32,
                                            },
                                        )
                                    }
                                }
                            }
                        }
                    }
                }
            }
        }
    }
}

/// `skip_ws` never moves backwards nor past the end.
proof fn lemma_skip_ws_range(s: Seq<u8>, i: int)
    requires
        0 <= i <= s.len(),
    ensures
        i <= skip_ws(s, i) <= s.len(),
    decreases s.len() - i,
{
    if i < s.len() && is_ws_b(s[i]) {
        lemma_skip_ws_range(s, i + 1);
    }
}

/// Every byte of a digit run is a digit, and the run stays inside the input.
proof fn lemma_digits_end_range(s: Seq<u8>, i: int)
    requires
        0 <= i <= s.len(),
    ensures
        i <= digits_end(s, i) <= s.len(),
        forall|k: int| i <= k < digits_end(s, i) ==> is_digit_b(#[trigger] s[k]),
    decreases s.len() - i,
{
    if i < s.len() && is_digit_b(s[i]) {
        lemma_digits_end_range(s, i + 1);
    }
}

/// Extending a digit run never shrinks the number it writes.
proof fn lemma_digits_val_b_prefix(t: Seq<u8>, k: int)
    requires
        forall|j: int| 0 <= j < t.len() ==> is_digit_b(#[trigger] t[j]),
        0 <= k <= t.len(),
    ensures
        0 <= digits_val_b(t.subrange(0, k)) <= digits_val_b(t),
    decreases t.len() - k,
{
    lemma_digits_val_b_nonneg(t.subrange(0, k));
    if k < t.len() {
        lemma_digits_val_b_prefix(t, k + 1);
        let p = t.subrange(0, k + 1);
        assert(p.drop_last() =~= t.subrange(0, k));
        lemma_digits_val_b_nonneg(t.subrange(0, k));
    } else {
        assert(t.subrange(0, k) =~= t);
    }
}

proof fn lemma_digits_val_b_nonneg(t: Seq<u8>)
    requires
        forall|j: int| 0 <= j < t.len() ==> is_digit_b(#[trigger] t[j]),
    ensures
        digits_val_b(t) >= 0,
    decreases t.len(),
{
    if t.len() > 0 {
        assert(forall|j: int|
            0 <= j < t.len() - 1 ==> is_digit_b(#[trigger] t.drop_last()[j]));
        lemma_digits_val_b_nonneg(t.drop_last());
    }
}

fn is_ws_exec(b: u8) -> (r: bool)
    ensures
        r == is_ws_b(b),
{
    b == B_SPACE || b == B_TAB || b == B_LF || b == B_CR
}

fn skip_ws_exec(s: &[u8], from: usize) -> (r: usize)
    requires
        from <= s@.len(),
    ensures
        r == skip_ws(s@, from as int),
        from <= r <= s@.len(),
{
    let mut i = from;
    while i < s.len() && is_ws_exec(s[i])
        invariant
            from <= i <= s@.len(),
            skip_ws(s@, from as int) == skip_ws(s@, i as int),
        decreases s@.len() - i,
    {
        i += 1;
    }
    i
}

/// Reads the digit run that starts at `from`; fails when it is empty or its
/// value does not fit in a dimension, and otherwise also reports where the
/// run ends.
fn read_u32(s: &[u8], from: usize) -> (r: Option<(u32, usize)>)
    requires
        from <= s@.len(),
    ensures
        match r {
            Some(p) => {
                &&& number_at(s@, from as int)
                &&& p.0 == number_value(s@, from as int)
                &&& p.1 == digits_end(s@, from as int)
                &&& from < p.1 <= s@.len()
            },
            None => !number_at(s@, from as int),
        },
{
    proof {
        lemma_digits_end_range(s@, from as int);
    }
    let ghost j = digits_end(s@, from as int);
    let mut i = from;
    let mut val: u64 = 0;
    while i < s.len() && s[i] >= B_ZERO && s[i] <= B_NINE
        invariant
            from <= i <= s@.len(),
            i <= j <= s@.len(),
            j == digits_end(s@, i as int),
            j == digits_end(s@, from as int),
            val == digits_val_b(s@.subrange(from as int, i as int)),
            val <= u32::MAX,
        decreases s@.len() - i,
    {
        let d = s[i] - B_ZERO;
        proof {
            let p = s@.subrange(from as int, i + 1);
            assert(p.drop_last() =~= s@.subrange(from as int, i as int));
            assert(p.last() == s@[i as int]);
            lemma_digits_end_range(s@, i + 1);
        }
        val = val * 10 + (d as u64);
        i += 1;
        if val > u32::MAX as u64 {
            proof {
                lemma_digits_end_range(s@, from as int);
                lemma_digits_end_range(s@, i as int);
                let t = s@.subrange(from as int, j);
                assert forall|k2: int| 0 <= k2 < t.len() implies is_digit_b(#[trigger] t[k2]) by {
                    assert(t[k2] == s@[from + k2]);
                }
                lemma_digits_val_b_prefix(t, i - from);
                assert(t.subrange(0, i - from) =~= s@.subrange(from as int, i as int));
            }
            return None;
        }
    }
    proof {
        assert(j == i);
    }
    if i == from {
        return None;
    }
    Some((val as u32, i))
}

fn width_key_exec(s: &[u8], i: usize) -> (b: bool)
    requires
        i <= s@.len(),
    ensures
        b == width_key_at(s@, i as int),
{
    s.len() - i >= 7 && s[i] == B_QUOTE && s[i + 1] == B_W && s[i + 2] == B_I && s[i + 3] == B_D
        && s[i + 4] == B_T && s[i + 5] == B_H && s[i + 6] == B_QUOTE
}

fn height_key_exec(s: &[u8], i: usize) -> (b: bool)
    requires
        i <= s@.len(),
    ensures
        b == height_key_at(s@, i as int),
{
    s.len() - i >= 8 && s[i] == B_QUOTE && s[i + 1] == B_H && s[i + 2] == B_E && s[i + 3] == B_I
        && s[i + 4] == B_G && s[i + 5] == B_H && s[i + 6] == B_T && s[i + 7] == B_QUOTE
}

/// Reads the probe's resolution record from the bytes it printed.  The
/// result is `Some` exactly when the bytes spell the fixed two-field
/// template, and then carries the two numbers.
pub fn parse_resolution(s: &[u8]) -> (r: Option<Resolution>)
    ensures
        r == parse_probe(s@),
{
    proof {
        lemma_skip_ws_range(s@, 0);
    }
    let i0 = skip_ws_exec(s, 0);
    if !(i0 < s.len() && s[i0] == B_LBRACE) {
        return None;
    }
    let i1 = skip_ws_exec(s, i0 + 1);
    if !width_key_exec(s, i1) {
        return None;
    }
    let i2 = skip_ws_exec(s, i1 + 7);
    if !(i2 < s.len() && s[i2] == B_COLON) {
        return None;
    }
    let i3 = skip_ws_exec(s, i2 + 1);
    let (w, w_end) = match read_u32(s, i3) {
        Some(p) => p,
        None => {
            return None;
        },
    };
    let i4 = skip_ws_exec(s, w_end);
    if !(i4 < s.len() && s[i4] == B_COMMA) {
        return None;
    }
    let i5 = skip_ws_exec(s, i4 + 1);
    if !height_key_exec(s, i5) {
        return None;
    }
    let i6 = skip_ws_exec(s, i5 + 8);
    if !(i6 < s.len() && s[i6] == B_COLON) {
        return None;
    }
    let i7 = skip_ws_exec(s, i6 + 1);
    let (h, h_end) = match read_u32(s, i7) {
        Some(p) => p,
        None => {
            return None;
        },
    };
    let i8 = skip_ws_exec(s, h_end);
    if !(i8 < s.len() && s[i8] == B_RBRACE) {
        return None;
    }
    if skip_ws_exec(s, i8 + 1) != s.len() {
        return None;
    }
    Some(Resolution { width: w, height: h })
}

} // verus!
