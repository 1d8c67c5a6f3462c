//! Pixel dimensions, the tagged scale triple, and the scaling arithmetic.

use vstd::prelude::*;

verus! {

/// A key in the size map: an image's base file name without its extension.
pub type Title = String;

/// Pixel dimensions of an image.
#[derive(Clone, Copy, Debug, PartialEq, Eq, Structural)]
pub struct Resolution {
    pub width: u32,
    pub height: u32,
}

/// One dimension scaled by a whole-number percentage: the product is divided
/// by 100 truncating toward zero, and the result saturates at `u32::MAX`.
pub open spec fn scaled_dim(d: u32, factor: u16) -> u32 {
    let v = (d as int) * (factor as int) / 100;
    if v <= u32::MAX as int {
        v as u32
    } else {
        u32::MAX
    }
}

/// Both dimensions of a resolution scaled by the same percentage.
pub open spec fn scale_spec(r: Resolution, factor: u16) -> Resolution {
    Resolution { width: scaled_dim(r.width, factor), height: scaled_dim(r.height, factor) }
}

fn scale_dim(d: u32, factor: u16) -> (r: u32)
    ensures
        r == scaled_dim(d, factor),
{
    proof {
        assert((d as int) * (factor as int) <= (u32::MAX as int) * (u16::MAX as int))
            by (nonlinear_arith)
            requires
                0 <= d <= u32::MAX,
                0 <= factor <= u16::MAX,
        ;
    }
    let p: u64 = (d as u64) * (factor as u64);
    let v: u64 = p / 100;
    if v <= u32::MAX as u64 {
        v as u32
    } else {
        u32::MAX
    }
}

/// Truncation is exact: whenever the mathematical result fits in a `u32`,
/// a scaled dimension is the floor of `d * factor / 100`, never a rounding.
pub proof fn lemma_scale_is_floor(r: Resolution, factor: u16)
    requires
        (r.width as int) * (factor as int) / 100 <= u32::MAX as int,
        (r.height as int) * (factor as int) / 100 <= u32::MAX as int,
    ensures
        scale_spec(r, factor).width == (r.width as int) * (factor as int) / 100,
        scale_spec(r, factor).height == (r.height as int) * (factor as int) / 100,
{
}

impl Resolution {
    pub fn scale(self, factor: u16) -> (r: Self)
        ensures
            r == scale_spec(self, factor),
    {
        Resolution { width: scale_dim(self.width, factor), height: scale_dim(self.height, factor) }
    }
}

/// A percentage tagged with the derivative size it produces.
#[derive(Debug, Clone, Copy, PartialEq, Eq, Structural)]
pub enum Scale {
    Large(u16),
    Medium(u16),
    Small(u16),
}

impl Scale {
    /// The percentage carried by a scale factor, whatever its tag.
    pub open spec fn inner_spec(self) -> u16 {
        match self {
            Scale::Large(n) => n,
            Scale::Medium(n) => n,
            Scale::Small(n) => n,
        }
    }

    pub fn inner(self) -> (n: u16)
        ensures
            n == self.inner_spec(),
    {
        match self {
            Scale::Large(n) => n,
            Scale::Medium(n) => n,
            Scale::Small(n) => n,
        }
    }
}

/// The configured triple of scale factors, one per tag.
pub type Scaling = [Scale; 3];

/// Each of the three tags occurs in the triple; since there are only three
/// slots, each then occurs exactly once.
pub open spec fn valid_scaling(s: Scaling) -> bool {
    &&& (s@[0] is Small || s@[1] is Small || s@[2] is Small)
    &&& (s@[0] is Medium || s@[1] is Medium || s@[2] is Medium)
    &&& (s@[0] is Large || s@[1] is Large || s@[2] is Large)
}

/// The percentage of the first `Small` entry of the triple; positions are a
/// construction convenience only, so lookups scan for the tag.
pub open spec fn small_pct(s: Scaling) -> u16 {
    if s@[0] is Small {
        s@[0].inner_spec()
    } else if s@[1] is Small {
        s@[1].inner_spec()
    } else {
        s@[2].inner_spec()
    }
}

/// The percentage of the first `Medium` entry of the triple.
pub open spec fn medium_pct(s: Scaling) -> u16 {
    if s@[0] is Medium {
        s@[0].inner_spec()
    } else if s@[1] is Medium {
        s@[1].inner_spec()
    } else {
        s@[2].inner_spec()
    }
}

/// The percentage of the first `Large` entry of the triple.
pub open spec fn large_pct(s: Scaling) -> u16 {
    if s@[0] is Large {
        s@[0].inner_spec()
    } else if s@[1] is Large {
        s@[1].inner_spec()
    } else {
        s@[2].inner_spec()
    }
}

fn find_small(s: &Scaling) -> (n: u16)
    ensures
        n == small_pct(*s),
{
    if let Scale::Small(n) = s[0] {
        n
    } else if let Scale::Small(n) = s[1] {
        n
    } else {
        s[2].inner()
    }
}

fn find_medium(s: &Scaling) -> (n: u16)
    ensures
        n == medium_pct(*s),
{
    if let Scale::Medium(n) = s[0] {
        n
    } else if let Scale::Medium(n) = s[1] {
        n
    } else {
        s[2].inner()
    }
}

fn find_large(s: &Scaling) -> (n: u16)
    ensures
        n == large_pct(*s),
{
    if let Scale::Large(n) = s[0] {
        n
    } else if let Scale::Large(n) = s[1] {
        n
    } else {
        s[2].inner()
    }
}

/// The four-way sizing record derived from one image's resolution.
#[derive(Debug, Clone, Copy, PartialEq, Eq, Structural)]
pub struct Image {
    pub original: Resolution,
    pub large: Resolution,
    pub medium: Resolution,
    pub small: Resolution,
}

/// The sizing record: the unscaled resolution beside the three derivative
/// resolutions, each scaled by the percentage looked up by tag.
pub open spec fn to_image_spec(r: Resolution, s: Scaling) -> Image {
    Image {
        original: r,
        large: scale_spec(r, large_pct(s)),
        medium: scale_spec(r, medium_pct(s)),
        small: scale_spec(r, small_pct(s)),
    }
}

impl Resolution {
    pub fn to_image(self, scaling: &Scaling) -> (img: Image)
        ensures
            img == to_image_spec(self, *scaling),
    {
        Image {
            original: self,
            large: self.scale(find_large(scaling)),
            medium: self.scale(find_medium(scaling)),
            small: self.scale(find_small(scaling)),
        }
    }
}

/// A sizing record keeps the original resolution untouched, and its three
/// derivative fields are exactly the original scaled by the percentage of
/// the matching tag.
pub proof fn lemma_to_image_fields(r: Resolution, s: Scaling)
    ensures
        to_image_spec(r, s).original == r,
        to_image_spec(r, s).small == scale_spec(r, small_pct(s)),
        to_image_spec(r, s).medium == scale_spec(r, medium_pct(s)),
        to_image_spec(r, s).large == scale_spec(r, large_pct(s)),
{
}

/// Lookups go by tag, not by position: two valid triples holding the same
/// three scale factors produce the same sizing record, however ordered.
pub proof fn lemma_to_image_order_independent(r: Resolution, s1: Scaling, s2: Scaling)
    requires
        valid_scaling(s1),
        valid_scaling(s2),
        forall|x: Scale| s1@.contains(x) <==> s2@.contains(x),
    ensures
        to_image_spec(r, s1) == to_image_spec(r, s2),
{
    assert(s1@.contains(s1@[0]));
    assert(s1@.contains(s1@[1]));
    assert(s1@.contains(s1@[2]));
    assert(s2@.contains(s2@[0]));
    assert(s2@.contains(s2@[1]));
    assert(s2@.contains(s2@[2]));
    assert(small_pct(s1) == small_pct(s2));
    assert(medium_pct(s1) == medium_pct(s2));
    assert(large_pct(s1) == large_pct(s2));
}

/// A separator in the scaling argument: a comma or a space.
pub open spec fn is_sep(c: char) -> bool {
    c == ',' || c == ' '
}

/// An ASCII decimal digit: a code point between those of '0' and '9'.
pub open spec fn is_digit(c: char) -> bool {
    48 <= c as int <= 57
}

/// The numeric value of a digit: its distance from the code point of '0'.
pub open spec fn digit_val(c: char) -> int {
    c as int - 48
}

/// The number written by a sequence of decimal digits, most significant first.
pub open spec fn digits_val(t: Seq<char>) -> int
    decreases t.len(),
{
    if t.len() == 0 {
        0
    } else {
        digits_val(t.drop_last()) * 10 + digit_val(t.last())
    }
}

pub open spec fn all_digits(t: Seq<char>) -> bool {
    forall|i: int| 0 <= i < t.len() ==> is_digit(#[trigger] t[i])
}

/// The digits of a numeric token, behind an optional leading plus sign.
pub open spec fn token_body(t: Seq<char>) -> Seq<char> {
    if t.len() > 0 && t[0] == '+' {
        t.drop_first()
    } else {
        t
    }
}

/// A token counts as numeric when its body is one or more decimal digits
/// whose value fits in a `u16`; anything else is discarded as noise.
pub open spec fn token_parses(t: Seq<char>) -> bool {
    let b = token_body(t);
    b.len() > 0 && all_digits(b) && digits_val(b) <= u16::MAX as int
}

pub open spec fn token_value(t: Seq<char>) -> u16 {
    digits_val(token_body(t)) as u16
}

/// The maximal separator-free runs of the input, oldest first.
pub open spec fn runs(s: Seq<char>) -> Seq<Seq<char>>
    decreases s.len(),
{
    if s.len() == 0 {
        Seq::empty()
    } else {
        let rest = runs(s.drop_last());
        let c = s.last();
        if is_sep(c) {
            rest
        } else if s.len() > 1 && !is_sep(s[s.len() - 2]) {
            rest.drop_last().push(rest.last().push(c))
        } else {
            rest.push(seq![c])
        }
    }
}

/// The values of the numeric tokens among a sequence of runs, in order.
pub open spec fn numeric_values_of(ts: Seq<Seq<char>>) -> Seq<u16>
    decreases ts.len(),
{
    if ts.len() == 0 {
        Seq::empty()
    } else {
        let rest = numeric_values_of(ts.drop_last());
        if token_parses(ts.last()) {
            rest.push(token_value(ts.last()))
        } else {
            rest
        }
    }
}

/// Every number that can be read out of the scaling argument, in order.
pub open spec fn numeric_values(s: Seq<char>) -> Seq<u16> {
    numeric_values_of(runs(s))
}

/// The code point of a character, as an executable value.
pub(crate) fn char_code(c: char) -> (u: u32)
    ensures
        u as int == c as int,
{
    c as u32
}

fn is_sep_exec(c: char) -> (b: bool)
    ensures
        b == is_sep(c),
{
    c == ',' || c == ' '
}

proof fn lemma_digits_val_bounds(t: Seq<char>)
    requires
        all_digits(t),
    ensures
        digits_val(t) >= 0,
        t.len() > 0 ==> digits_val(t) >= digit_val(t[0]),
    decreases t.len(),
{
    if t.len() > 0 {
        assert(all_digits(t.drop_last())) by {
            assert(forall|i: int|
                0 <= i < t.len() - 1 ==> #[trigger] t.drop_last()[i] == t[i]);
        }
        lemma_digits_val_bounds(t.drop_last());
        if t.len() > 1 {
            assert(t.drop_last()[0] == t[0]);
        }
    }
}

/// Appending digits never shrinks the written number.
proof fn lemma_digits_val_prefix(t: Seq<char>, k: int)
    requires
        all_digits(t),
        0 <= k <= t.len(),
    ensures
        digits_val(t.subrange(0, k)) <= digits_val(t),
    decreases t.len() - k,
{
    assert(all_digits(t.subrange(0, k)));
    lemma_digits_val_bounds(t.subrange(0, k));
    if k < t.len() {
        lemma_digits_val_prefix(t, k + 1);
        let p = t.subrange(0, k + 1);
        assert(p.drop_last() =~= t.subrange(0, k));
        assert(digits_val(p) == digits_val(t.subrange(0, k)) * 10 + digit_val(p.last()));
        lemma_digits_val_bounds(t.subrange(0, k));
        assert(digits_val(t.subrange(0, k)) * 10 >= digits_val(t.subrange(0, k))) by {
            assert(digits_val(t.subrange(0, k)) >= 0);
        }
        assert(digit_val(p.last()) >= 0);
    } else {
        assert(t.subrange(0, k) =~= t);
    }
}

/// Reads one token exactly as the standard unsigned parse would: an optional
/// plus sign, then decimal digits whose value must fit.
fn parse_u16_token(t: &Vec<char>) -> (r: Option<u16>)
    ensures
        r == if token_parses(t@) {
            Some(token_value(t@))
        } else {
            None::<u16>
        },
{
    let ghost body = token_body(t@);
    let mut i: usize = 0;
    if t.len() > 0 && t[0] == '+' {
        i = 1;
    }
    let start: usize = i;
    proof {
        assert(body =~= t@.subrange(start as int, t@.len() as int));
    }
    if i == t.len() {
        return None;
    }
    let mut val: u32 = 0;
    while i < t.len()
        invariant
            start <= i <= t@.len(),
            t@.len() > 0,
            body == t@.subrange(start as int, t@.len() as int),
            body == token_body(t@),
            all_digits(body.subrange(0, i - start)),
            val == digits_val(body.subrange(0, i - start)),
            val <= u16::MAX,
        decreases t@.len() - i,
    {
        let c = t[i];
        let u = char_code(c);
        if u < 48 || u > 57 {
            proof {
                assert(!is_digit(body[i - start]));
            }
            return None;
        }
        let d: u32 = u - 48;
        proof {
            assert(is_digit(c));
            assert(body[i - start] == c);
            let p = body.subrange(0, i - start + 1);
            assert(p.drop_last() =~= body.subrange(0, i - start));
            assert(p.last() == c);
        }
        val = val * 10 + d;
        i += 1;
        if val > u16::MAX as u32 {
            proof {
                if token_parses(t@) {
                    lemma_digits_val_prefix(body, i - start);
                }
            }
            return None;
        }
    }
    proof {
        assert(body.subrange(0, i - start) =~= body);
    }
    Some(val as u16)
}

/// Splits the input at commas and spaces and keeps the values of the tokens
/// that read as `u16` numbers, in their textual order.
fn numeric_tokens(s: &str) -> (vals: Vec<u16>)
    ensures
        vals@ == numeric_values(s@),
{
    let n = s.unicode_len();
    let mut vals: Vec<u16> = Vec::new();
    let mut cur: Vec<char> = Vec::new();
    let ghost mut rts: Seq<Seq<char>> = Seq::empty();
    let mut i: usize = 0;
    while i < n
        invariant
            i <= n,
            n == s@.len(),
            cur@.len() == 0 ==> runs(s@.subrange(0, i as int)) == rts,
            cur@.len() > 0 ==> runs(s@.subrange(0, i as int)) == rts.push(cur@),
            cur@.len() > 0 ==> i > 0 && !is_sep(s@[i - 1]),
            cur@.len() == 0 ==> i == 0 || is_sep(s@[i - 1]),
            vals@ == numeric_values_of(rts),
        decreases n - i,
    {
        let c = s.get_char(i);
        proof {
            let p = s@.subrange(0, i as int);
            let q = s@.subrange(0, i + 1);
            assert(q.drop_last() =~= p);
            assert(q.last() == s@[i as int]);
        }
        if is_sep_exec(c) {
            if cur.len() > 0 {
                proof {
                    assert(rts.push(cur@).drop_last() =~= rts);
                }
                match parse_u16_token(&cur) {
                    Some(v) => vals.push(v),
                    None => (),
                }
                proof {
                    rts = rts.push(cur@);
                }
                cur = Vec::new();
            }
        } else {
            proof {
                let p = s@.subrange(0, i as int);
                let q = s@.subrange(0, i + 1);
                if i > 0 {
                    assert(q[i - 1] == s@[i - 1]);
                }
                if cur@.len() > 0 {
                    let r = runs(p);
                    assert(r.drop_last() =~= rts);
                    assert(r.last() == cur@);
                } else {
                    assert(cur@.push(c) =~= seq![c]);
                }
            }
            cur.push(c);
        }
        i += 1;
    }
    proof {
        assert(s@.subrange(0, n as int) =~= s@);
    }
    if cur.len() > 0 {
        proof {
            assert(rts.push(cur@).drop_last() =~= rts);
        }
        match parse_u16_token(&cur) {
            Some(v) => vals.push(v),
            None => (),
        }
    }
    vals
}

/// The text of the configuration error, pinned so that callers can state
/// exactly which message a miscounted argument produces.
pub open spec fn scaling_err_msg() -> Seq<char> {
    "Scaling arg should be three unsigned integers separated by space or commas, I.E. --scale 10, 50, 75"@
}

/// Reads the scaling argument: all numeric tokens are extracted, every other
/// token is discarded, and exactly three numbers must remain; they become the
/// small, medium and large percentages in that fixed order.
pub fn parse_scaling(s: &str) -> (res: Result<Scaling, String>)
    ensures
        match res {
            Ok(sc) => {
                &&& numeric_values(s@).len() == 3
                &&& sc@ =~= seq![
                    Scale::Small(numeric_values(s@)[0]),
                    Scale::Medium(numeric_values(s@)[1]),
                    Scale::Large(numeric_values(s@)[2]),
                ]
                &&& valid_scaling(sc)
            },
            Err(m) => {
                &&& numeric_values(s@).len() != 3
                &&& m@ == scaling_err_msg()
            },
        },
{
    let vals = numeric_tokens(s);
    if vals.len() == 3 {
        let sc: Scaling = [Scale::Small(vals[0]), Scale::Medium(vals[1]), Scale::Large(vals[2])];
        Ok(sc)
    } else {
        Err(
            "Scaling arg should be three unsigned integers separated by space or commas, I.E. --scale 10, 50, 75".to_owned(),
        )
    }
}

} // verus!
