//! Amounts of money held exactly, read from decimal text and written to two decimal places.

use vstd::prelude::*;

use crate::text::{
    all_digits, digit_char, digit_str, digit_value, digits_value, is_digit, nat_text,
    push_nat,
};

verus! {

/// An amount of money, held exactly as a whole number of 10^-18 of the currency unit.
#[derive(Clone, Copy, Debug, PartialEq, Eq, Structural)]
pub struct Amount {
    pub scaled: i128,
}

impl View for Amount {
    type V = int;

    /// The amount in 10^-18 of the currency unit.
    open spec fn view(&self) -> int {
        self.scaled as int
    }
}

pub open spec fn pow10(n: nat) -> nat
    decreases n,
{
    if n == 0 {
        1
    } else {
        10 * pow10((n - 1) as nat)
    }
}

/// One currency unit, in the units of `Amount`.
pub open spec fn one_unit() -> nat {
    1_000_000_000_000_000_000
}

/// One hundredth of the currency unit, in the units of `Amount`.
pub open spec fn one_hundredth() -> nat {
    10_000_000_000_000_000
}

// ---------------------------------------------------------------------------
// Reading decimal text
// ---------------------------------------------------------------------------

/// The length of the sign that `s` starts with: 1 for `-` or `+`, else 0.
pub open spec fn sign_len(s: Seq<char>) -> int {
    if s.len() > 0 && (s[0] == '-' || s[0] == '+') {
        1
    } else {
        0
    }
}

/// The index of the first `.` in `u`, or its length where it holds none.
pub open spec fn dot_index(u: Seq<char>) -> int
    decreases u.len(),
{
    if u.len() == 0 {
        0
    } else if u[0] == '.' {
        0
    } else {
        1 + dot_index(u.skip(1))
    }
}

/// The digits before the decimal point of an unsigned decimal text.
pub open spec fn whole_digits(u: Seq<char>) -> Seq<char> {
    u.take(dot_index(u))
}

/// The digits after the decimal point of an unsigned decimal text (none without a point).
pub open spec fn fraction_digits(u: Seq<char>) -> Seq<char> {
    if dot_index(u) < u.len() {
        u.skip(dot_index(u) + 1)
    } else {
        Seq::empty()
    }
}

/// Whether every character of `s` is `0`.
pub open spec fn all_zeros(s: Seq<char>) -> bool {
    forall|i: int| 0 <= i < s.len() ==> #[trigger] s[i] == '0'
}

pub open spec fn min_nat(a: nat, b: nat) -> nat {
    if a <= b {
        a
    } else {
        b
    }
}

/// The value of fraction digits, in 10^-18 units; digits past the eighteenth are ignored.
pub open spec fn fraction_units(f: Seq<char>) -> nat {
    let k = min_nat(f.len(), 18);
    digits_value(f.take(k as int)) * pow10((18 - k) as nat)
}

/// Whether `s` is a decimal number that an `Amount` holds exactly: an optional sign,
/// digits, and optionally a point followed by digits, with at least one digit in all,
/// and no non-zero digit past the eighteenth decimal place.
pub open spec fn is_decimal_text(s: Seq<char>) -> bool {
    let u = s.skip(sign_len(s));
    &&& all_digits(whole_digits(u))
    &&& all_digits(fraction_digits(u))
    &&& whole_digits(u).len() + fraction_digits(u).len() > 0
    &&& fraction_digits(u).len() > 18 ==> all_zeros(fraction_digits(u).skip(18))
}

/// The size of the number that decimal text names, in 10^-18 units.
pub open spec fn decimal_magnitude(s: Seq<char>) -> nat {
    let u = s.skip(sign_len(s));
    digits_value(whole_digits(u)) * one_unit() + fraction_units(fraction_digits(u))
}

/// The amount, in 10^-18 units, that `s` names, where it is decimal text whose size
/// fits an `Amount`.
pub open spec fn amount_of_text(s: Seq<char>) -> Option<int> {
    if is_decimal_text(s) && decimal_magnitude(s) <= i128::MAX {
        if s.len() > 0 && s[0] == '-' {
            Some(-decimal_magnitude(s))
        } else {
            Some(decimal_magnitude(s) as int)
        }
    } else {
        None
    }
}

proof fn lemma_dot_index(u: Seq<char>)
    ensures
        0 <= dot_index(u) <= u.len(),
        forall|j: int| 0 <= j < dot_index(u) ==> u[j] != '.',
        dot_index(u) < u.len() ==> u[dot_index(u)] == '.',
    decreases u.len(),
{
    if u.len() > 0 && u[0] != '.' {
        lemma_dot_index(u.skip(1));
        assert forall|j: int| 0 <= j < dot_index(u) implies u[j] != '.' by {
            if j > 0 {
                assert(u[j] == u.skip(1)[j - 1]);
            }
        }
    }
}

/// Any index with no point before it and a point there, or at the end, is the dot index.
proof fn lemma_dot_index_at(u: Seq<char>, i: int)
    requires
        0 <= i <= u.len(),
        forall|j: int| 0 <= j < i ==> u[j] != '.',
        i < u.len() ==> u[i] == '.',
    ensures
        dot_index(u) == i,
{
    lemma_dot_index(u);
    if dot_index(u) < i {
        assert(u[dot_index(u)] == '.');
    }
    if dot_index(u) > i {
        assert(u[i] != '.');
    }
}

proof fn lemma_pow10_positive(n: nat)
    ensures
        pow10(n) >= 1,
    decreases n,
{
    if n > 0 {
        lemma_pow10_positive((n - 1) as nat);
    }
}

proof fn lemma_pow10_monotone(a: nat, b: nat)
    requires
        a <= b,
    ensures
        pow10(a) <= pow10(b),
    decreases b,
{
    if a < b {
        lemma_pow10_monotone(a, (b - 1) as nat);
        lemma_pow10_positive((b - 1) as nat);
    }
}

proof fn lemma_pow10_at_most_unit(k: nat)
    requires
        k <= 18,
    ensures
        1 <= pow10(k) <= one_unit(),
        k < 18 ==> pow10(k) * 10 <= one_unit(),
{
    lemma_pow10_positive(k);
    lemma_pow10_monotone(k, 18);
    reveal_with_fuel(pow10, 19);
    if k < 18 {
        lemma_pow10_monotone(k, 17);
    }
}

/// Appending a digit to the prefix `s.take(i)` gives the prefix `s.take(i + 1)`.
proof fn lemma_digits_value_step(s: Seq<char>, i: int)
    requires
        0 <= i < s.len(),
    ensures
        digits_value(s.take(i + 1)) == digits_value(s.take(i)) * 10 + digit_value(s[i]),
{
    assert(s.take(i + 1).drop_last() =~= s.take(i));
}

fn char_digit(c: char) -> (r: Option<u8>)
    ensures
        r is Some <==> is_digit(c),
        r is Some ==> r->0 as nat == digit_value(c) && r->0 < 10,
{
    if '0' <= c && c <= '9' {
        Some((c as u32 - '0' as u32) as u8)
    } else {
        None
    }
}

/// The greatest whole part that an `Amount` can hold.
const MAX_WHOLE: u128 = 170141183460469231731;

/// Reads the run of digits of `text` from `start`: where it ends, and its value where
/// that is at most `MAX_WHOLE`.
fn scan_whole(text: &str, start: usize) -> (r: (usize, u128, bool))
    requires
        start <= text@.len(),
    ensures
        start <= r.0 <= text@.len(),
        all_digits(text@.subrange(start as int, r.0 as int)),
        r.0 < text@.len() ==> !is_digit(text@[r.0 as int]),
        r.2 ==> digits_value(text@.subrange(start as int, r.0 as int)) > MAX_WHOLE,
        !r.2 ==> r.1 == digits_value(text@.subrange(start as int, r.0 as int)),
        !r.2 ==> r.1 <= MAX_WHOLE,
{
    let ghost s = text@;
    let n = text.unicode_len();
    let mut i: usize = start;
    let mut whole: u128 = 0;
    let mut too_large = false;
    loop
        invariant
            s == text@,
            n == s.len(),
            start <= i <= n,
            all_digits(s.subrange(start as int, i as int)),
            too_large ==> digits_value(s.subrange(start as int, i as int)) > MAX_WHOLE,
            !too_large ==> whole == digits_value(s.subrange(start as int, i as int)),
            !too_large ==> whole <= MAX_WHOLE,
        ensures
            start <= i <= n,
            all_digits(s.subrange(start as int, i as int)),
            i < n ==> !is_digit(s[i as int]),
            too_large ==> digits_value(s.subrange(start as int, i as int)) > MAX_WHOLE,
            !too_large ==> whole == digits_value(s.subrange(start as int, i as int)),
            !too_large ==> whole <= MAX_WHOLE,
        decreases n - i,
    {
        if i >= n {
            break;
        }
        let d = match char_digit(text.get_char(i)) {
            Some(d) => d,
            None => {
                break;
            },
        };
        let ghost prev = s.subrange(start as int, i as int);
        let ghost next = s.subrange(start as int, i + 1);
        proof {
            assert(next.drop_last() =~= prev);
            assert(digits_value(next) == digits_value(prev) * 10 + d);
            assert forall|j: int| 0 <= j < next.len() implies is_digit(#[trigger] next[j]) by {
                if j < prev.len() {
                    assert(next[j] == prev[j]);
                }
            }
        }
        if !too_large {
            whole = whole * 10 + d as u128;
            if whole > MAX_WHOLE {
                too_large = true;
            }
        }
        i = i + 1;
    }
    (i, whole, too_large)
}

/// Reads the digits of `text` after a decimal point at `from - 1`: their value in
/// 10^-18 units, and how many there are. `None` where a character is no digit or
/// a digit past the eighteenth is not zero.
fn scan_fraction(text: &str, from: usize) -> (r: Option<(u64, usize)>)
    requires
        from <= text@.len(),
    ensures
        r is Some <==> ({
            let f = text@.skip(from as int);
            all_digits(f) && (f.len() > 18 ==> all_zeros(f.skip(18)))
        }),
        r matches Some((units, len)) ==> {
            &&& len == text@.len() - from
            &&& units == fraction_units(text@.skip(from as int))
            &&& units < one_unit()
        },
{
    let ghost s = text@;
    let ghost f = s.skip(from as int);
    let n = text.unicode_len();
    let mut i: usize = from;
    let mut fraction: u64 = 0;
    let mut len: usize = 0;
    proof {
        lemma_pow10_positive(0);
    }
    while i < n
        invariant
            s == text@,
            f == s.skip(from as int),
            n == s.len(),
            from <= i <= n,
            len == i - from,
            all_digits(f.take(len as int)),
            len > 18 ==> all_zeros(f.subrange(18, len as int)),
            fraction == digits_value(f.take(min_nat(len as nat, 18) as int)),
            fraction < pow10(min_nat(len as nat, 18)),
        decreases n - i,
    {
        let c = text.get_char(i);
        assert(f[len as int] == c);
        let d = match char_digit(c) {
            Some(d) => d,
            None => {
                return None;
            },
        };
        if len < 18 {
            proof {
                lemma_pow10_at_most_unit(len as nat);
                lemma_digits_value_step(f, len as int);
                assert(pow10(len as nat + 1) == 10 * pow10(len as nat));
            }
            fraction = fraction * 10 + d as u64;
        } else if c != '0' {
            proof {
                assert(f.skip(18)[len - 18] == c);
            }
            return None;
        }
        proof {
            let t = f.take(len + 1);
            assert forall|j: int| 0 <= j < t.len() implies is_digit(#[trigger] t[j]) by {
                if j < len {
                    assert(t[j] == f.take(len as int)[j]);
                }
            }
            if len + 1 > 18 {
                let z = f.subrange(18, len + 1);
                assert forall|j: int| 0 <= j < z.len() implies #[trigger] z[j] == '0' by {
                    if j < len - 18 {
                        assert(z[j] == f.subrange(18, len as int)[j]);
                    }
                }
            }
        }
        len = len + 1;
        i = i + 1;
    }
    proof {
        assert(f.take(len as int) =~= f);
        if len > 18 {
            assert(f.subrange(18, len as int) =~= f.skip(18));
        }
    }
    let kept: usize = if len < 18 {
        len
    } else {
        18
    };
    Some((scale_fraction(fraction, kept), len))
}

/// `fraction` * 10^(18 - `kept`): the value of `kept` decimal places in 10^-18 units.
fn scale_fraction(fraction: u64, kept: usize) -> (r: u64)
    requires
        kept <= 18,
        fraction < pow10(kept as nat),
    ensures
        r == fraction * pow10((18 - kept) as nat),
        r < one_unit(),
{
    let mut fill: u64 = 1;
    let mut k: usize = kept;
    proof {
        lemma_pow10_positive(kept as nat);
    }
    while k < 18
        invariant
            kept <= k <= 18,
            fill == pow10((k - kept) as nat),
            fill <= pow10(k as nat),
            fraction * fill < pow10(k as nat),
        decreases 18 - k,
    {
        proof {
            lemma_pow10_at_most_unit(k as nat);
            assert(pow10((k + 1 - kept) as nat) == 10 * pow10((k - kept) as nat));
            assert(pow10((k + 1) as nat) == 10 * pow10(k as nat));
            assert(fraction * (fill * 10) == (fraction * fill) * 10) by (nonlinear_arith);
        }
        fill = fill * 10;
        k = k + 1;
    }
    proof {
        reveal_with_fuel(pow10, 19);
        assert(pow10(18) == one_unit());
    }
    fraction * fill
}

impl Amount {
    /// Reads a decimal number: an optional sign, digits, and optionally a point followed by
    /// digits. Returns `None` where the text is no such number, where it has a non-zero
    /// digit past the eighteenth decimal place, or where it is too large to hold.
    pub fn parse(text: &str) -> (r: Option<Amount>)
        ensures
            r is Some <==> amount_of_text(text@) is Some,
            r is Some ==> r->0@ == amount_of_text(text@)->0,
    {
        let ghost s = text@;
        let n = text.unicode_len();
        let mut start: usize = 0;
        let mut negative = false;
        if n > 0 {
            let c = text.get_char(0);
            if c == '-' {
                negative = true;
                start = 1;
            } else if c == '+' {
                start = 1;
            }
        }
        let ghost u = s.skip(start as int);
        assert(start as int == sign_len(s));
        let (whole_end, whole, too_large) = scan_whole(text, start);
        let ghost w = s.subrange(start as int, whole_end as int);
        proof {
            assert forall|j: int| 0 <= j < whole_end - start implies u[j] != '.' by {
                assert(u[j] == w[j]);
            }
        }
        let mut units: u64 = 0;
        let mut fraction_len: usize = 0;
        if whole_end < n {
            proof {
                assert(u[whole_end - start] == s[whole_end as int]);
            }
            if text.get_char(whole_end) != '.' {
                proof {
                    lemma_dot_index(u);
                    if dot_index(u) < whole_end - start {
                        assert(u[dot_index(u)] == '.');
                    }
                    assert(whole_digits(u)[whole_end - start] == s[whole_end as int]);
                }
                return None;
            }
            proof {
                lemma_dot_index_at(u, whole_end - start);
                assert(fraction_digits(u) =~= s.skip(whole_end + 1));
            }
            match scan_fraction(text, whole_end + 1) {
                Some((v, len)) => {
                    units = v;
                    fraction_len = len;
                },
                None => {
                    return None;
                },
            }
        } else {
            proof {
                lemma_dot_index_at(u, whole_end - start);
                assert(fraction_digits(u) =~= Seq::<char>::empty());
                assert(fraction_digits(u).take(0) =~= Seq::<char>::empty());
                assert(digits_value(fraction_digits(u).take(0)) == 0);
                assert(min_nat(fraction_digits(u).len(), 18) == 0);
                assert(0 * pow10(18) == 0);
                assert(fraction_units(fraction_digits(u)) == 0);
            }
        }
        proof {
            assert(whole_digits(u) =~= w);
            assert(fraction_digits(u).len() == fraction_len);
            assert(units == fraction_units(fraction_digits(u)));
        }
        if whole_end == start && fraction_len == 0 {
            return None;
        }
        if too_large {
            proof {
                assert(digits_value(w) * one_unit() > i128::MAX) by (nonlinear_arith)
                    requires
                        digits_value(w) > 170141183460469231731nat,
                ;
            }
            return None;
        }
        proof {
            assert(whole * one_unit() <= 170141183460469231731nat * one_unit()) by (nonlinear_arith)
                requires
                    whole <= 170141183460469231731nat,
            ;
        }
        let magnitude: u128 = whole * 1_000_000_000_000_000_000u128 + units as u128;
        if magnitude > 170141183460469231731687303715884105727u128 {
            return None;
        }
        let m = magnitude as i128;
        if negative {
            Some(Amount { scaled: -m })
        } else {
            Some(Amount { scaled: m })
        }
    }
}

// ---------------------------------------------------------------------------
// Writing to two decimal places
// ---------------------------------------------------------------------------

pub open spec fn abs(v: int) -> nat {
    if v < 0 {
        (-v) as nat
    } else {
        v as nat
    }
}

/// The size of `v` (in 10^-18 units) in hundredths of the currency unit, rounded to the
/// nearest hundredth, and to the even hundredth where two are equally near.
pub open spec fn rounded_hundredths(v: int) -> nat {
    let a = abs(v);
    let q = a / one_hundredth();
    let rest = a % one_hundredth();
    if rest > one_hundredth() / 2 || (rest == one_hundredth() / 2 && q % 2 == 1) {
        q + 1
    } else {
        q
    }
}

/// The text of an amount rounded to two decimal places, with a minus sign where it is
/// negative and does not round to zero.
pub open spec fn amount_text(v: int) -> Seq<char> {
    let h = rounded_hundredths(v);
    let sign = if v < 0 && h > 0 {
        seq!['-']
    } else {
        Seq::<char>::empty()
    };
    sign + nat_text(h / 100) + seq!['.', digit_char(h % 100 / 10), digit_char(h % 10)]
}

impl Amount {
    /// The amount `mantissa` * 10^-`places`, for tests and callers that hold a number in
    /// decimal form.
    pub fn from_decimal(mantissa: i64, places: u32) -> (r: Amount)
        requires
            places <= 18,
        ensures
            r@ == mantissa * pow10((18 - places) as nat),
    {
        let mut scaled: i128 = mantissa as i128;
        let mut k: u32 = places;
        proof {
            assert(pow10(0) == 1);
            lemma_pow10_monotone(0, places as nat);
            assert((k - places) as nat == 0);
            assert(mantissa * pow10(0) == mantissa);
        }
        while k < 18
            invariant
                places <= k <= 18,
                scaled == mantissa * pow10((k - places) as nat),
                pow10((k - places) as nat) <= pow10(k as nat),
            decreases 18 - k,
        {
            proof {
                lemma_pow10_at_most_unit(k as nat);
                let p = pow10((k - places) as nat);
                assert(pow10((k + 1 - places) as nat) == 10 * p);
                assert(pow10((k + 1) as nat) == 10 * pow10(k as nat));
                assert(p * 10 <= one_unit());
                assert(-0x8000_0000_0000_0000 <= mantissa < 0x8000_0000_0000_0000);
                assert(mantissa * p * 10 == mantissa * (10 * p)) by (nonlinear_arith);
                assert(-0x8000_0000_0000_0000 * one_unit() <= mantissa * (10 * p) <= 0x8000_0000_0000_0000 * one_unit()) by (nonlinear_arith)
                    requires
                        -0x8000_0000_0000_0000 <= mantissa < 0x8000_0000_0000_0000,
                        0 <= 10 * p <= one_unit(),
                ;
            }
            scaled = scaled * 10;
            k = k + 1;
        }
        Amount { scaled }
    }

    /// Whether the amount is written `0.00` at two decimal places.
    pub fn rounds_to_zero(&self) -> (r: bool)
        ensures
            r == (rounded_hundredths(self@) == 0),
    {
        self.hundredths() == 0
    }

    /// The size of the amount in hundredths, rounded half to even.
    fn hundredths(&self) -> (r: u128)
        ensures
            r == rounded_hundredths(self@),
    {
        let a: u128 = if self.scaled < 0 {
            (-(self.scaled + 1)) as u128 + 1
        } else {
            self.scaled as u128
        };
        let q = a / 10_000_000_000_000_000u128;
        let rest = a % 10_000_000_000_000_000u128;
        if rest > 5_000_000_000_000_000u128 || (rest == 5_000_000_000_000_000u128 && q % 2 == 1) {
            q + 1
        } else {
            q
        }
    }

    /// Appends the amount, rounded to two decimal places, to `out`.
    pub fn push_text(&self, out: &mut String)
        ensures
            final(out)@ == old(out)@ + amount_text(self@),
    {
        let h = self.hundredths();
        let ghost before = out@;
        if self.scaled < 0 && h > 0 {
            out.append("-");
        }
        push_nat(out, h / 100);
        out.append(".");
        out.append(digit_str((h % 100 / 10) as u8));
        out.append(digit_str((h % 10) as u8));
        proof {
            reveal_strlit("-");
            reveal_strlit(".");
            assert(final(out)@ =~= before + amount_text(self@));
        }
    }

    /// The amount rounded to two decimal places, as in `132.23` or `-0.50`.
    pub fn to_string(&self) -> (r: String)
        ensures
            r@ == amount_text(self@),
    {
        let mut out = String::new();
        self.push_text(&mut out);
        proof {
            assert(out@ =~= amount_text(self@));
        }
        out
    }
}

} // verus!
