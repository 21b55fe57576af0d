//! An exact base-10 number, `coefficient × 10^exponent`.

use vstd::prelude::*;

verus! {

/// `10^n`.
pub open spec fn pow10(n: nat) -> int
    decreases n,
{
    if n == 0 {
        1
    } else {
        10 * pow10((n - 1) as nat)
    }
}

/// The coefficients a `Decimal` can hold: those of `i128` whose negation is an `i128` too.
pub open spec fn in_range(x: int) -> bool {
    -(i128::MAX as int) <= x <= i128::MAX as int
}

/// The coefficient of `c × 10^e` written at the exponent `to`, which is not above `e`.
pub open spec fn rescaled(c: int, e: int, to: int) -> int {
    c * pow10((e - to) as nat)
}

pub open spec fn min_exponent(a: (int, int), b: (int, int)) -> int {
    if a.1 <= b.1 {
        a.1
    } else {
        b.1
    }
}

/// The exact sum, at the smaller of the two exponents.
pub open spec fn sum_of(a: (int, int), b: (int, int)) -> (int, int) {
    let m = min_exponent(a, b);
    (rescaled(a.0, a.1, m) + rescaled(b.0, b.1, m), m)
}

/// The exact difference, at the smaller of the two exponents.
pub open spec fn difference_of(a: (int, int), b: (int, int)) -> (int, int) {
    let m = min_exponent(a, b);
    (rescaled(a.0, a.1, m) - rescaled(b.0, b.1, m), m)
}

/// Both operands, brought to the smaller exponent, and their sum are coefficients in range.
pub open spec fn sum_fits(a: (int, int), b: (int, int)) -> bool {
    let m = min_exponent(a, b);
    &&& in_range(rescaled(a.0, a.1, m))
    &&& in_range(rescaled(b.0, b.1, m))
    &&& in_range(sum_of(a, b).0)
}

/// Both operands, brought to the smaller exponent, and their difference are coefficients in range.
pub open spec fn difference_fits(a: (int, int), b: (int, int)) -> bool {
    let m = min_exponent(a, b);
    &&& in_range(rescaled(a.0, a.1, m))
    &&& in_range(rescaled(b.0, b.1, m))
    &&& in_range(difference_of(a, b).0)
}

/// The number times the integer `q`, at the same exponent.
pub open spec fn scaled_by(a: (int, int), q: int) -> (int, int) {
    (a.0 * q, a.1)
}

/// The absolute value, at the same exponent.
pub open spec fn magnitude(a: (int, int)) -> (int, int) {
    (if a.0 < 0 {
        -a.0
    } else {
        a.0
    }, a.1)
}

/// The number with its trailing zero digits removed: zero becomes `0 × 10^0`, and
/// the exponent grows no further than `i32::MAX`.
pub open spec fn normal_form(a: (int, int)) -> (int, int)
    decreases i32::MAX - a.1,
{
    if a.0 == 0 {
        (0, 0)
    } else if a.0 % 10 == 0 && a.1 < i32::MAX {
        normal_form((a.0 / 10, a.1 + 1))
    } else {
        a
    }
}

pub proof fn lemma_pow10_positive(n: nat)
    ensures
        pow10(n) >= 1,
    decreases n,
{
    if n > 0 {
        lemma_pow10_positive((n - 1) as nat);
    }
}

pub proof fn lemma_pow10_add(a: nat, b: nat)
    ensures
        pow10(a + b) == pow10(a) * pow10(b),
    decreases a,
{
    if a > 0 {
        lemma_pow10_add((a - 1) as nat, b);
        assert(pow10(a + b) == 10 * pow10((a - 1 + b) as nat));
        assert(10 * (pow10((a - 1) as nat) * pow10(b)) == (10 * pow10((a - 1) as nat)) * pow10(b))
            by (nonlinear_arith);
    }
}

/// Removing trailing zeros a second time changes nothing.
pub proof fn lemma_normal_form_idempotent(a: (int, int))
    ensures
        normal_form(normal_form(a)) == normal_form(a),
    decreases i32::MAX - a.1,
{
    if a.0 != 0 && a.0 % 10 == 0 && a.1 < i32::MAX {
        lemma_normal_form_idempotent((a.0 / 10, a.1 + 1));
    }
}

/// Writing a number with `k` more zero digits at a `k` smaller exponent leaves its
/// normal form as it was.
pub proof fn lemma_normal_form_rescaled(c: int, e: int, k: nat)
    requires
        e <= i32::MAX,
    ensures
        normal_form((c * pow10(k), e - k)) == normal_form((c, e)),
    decreases k,
{
    if k > 0 {
        let k1 = (k - 1) as nat;
        lemma_normal_form_rescaled(c, e, k1);
        let x = c * pow10(k1);
        assert(c * pow10(k) == 10 * x) by (nonlinear_arith)
            requires
                pow10(k) == 10 * pow10(k1),
                x == c * pow10(k1),
        ;
        if c == 0 {
            assert(x == 0) by (nonlinear_arith)
                requires
                    c == 0,
                    x == c * pow10(k1),
            ;
        } else {
            lemma_pow10_positive(k1);
            assert(x != 0) by (nonlinear_arith)
                requires
                    c != 0,
                    pow10(k1) >= 1,
                    x == c * pow10(k1),
            ;
            assert((10 * x) % 10 == 0 && (10 * x) / 10 == x) by (nonlinear_arith);
            assert(e - k + 1 == e - k1);
        }
    }
}

pub open spec fn is_digit(c: char) -> bool {
    '0' <= c && c <= '9'
}

pub open spec fn all_digits(s: Seq<char>) -> bool {
    forall|i: int| 0 <= i < s.len() ==> is_digit(#[trigger] s[i])
}

/// The integer that a string of decimal digits spells.
pub open spec fn digits_value(s: Seq<char>) -> int
    decreases s.len(),
{
    if s.len() == 0 {
        0
    } else {
        10 * digits_value(s.drop_last()) + (s.last() as int - '0' as int)
    }
}

/// The index of the first character of `s` that is `a` or `b`, or `s.len()` where there is none.
pub open spec fn first_of(s: Seq<char>, a: char, b: char) -> int
    decreases s.len(),
{
    if s.len() == 0 {
        0
    } else if s[0] == a || s[0] == b {
        0
    } else {
        1 + first_of(s.drop_first(), a, b)
    }
}

pub open spec fn has_sign(s: Seq<char>) -> bool {
    s.len() > 0 && (s[0] == '-' || s[0] == '+')
}

/// `s` without its leading sign, if it has one.
pub open spec fn unsigned_part(s: Seq<char>) -> Seq<char> {
    if has_sign(s) {
        s.drop_first()
    } else {
        s
    }
}

/// The integer that `s` spells: an optional sign, then one digit or more.
pub open spec fn signed_integer_text(s: Seq<char>) -> Option<int> {
    let u = unsigned_part(s);
    if u.len() > 0 && all_digits(u) {
        Some(
            if s[0] == '-' {
                -digits_value(u)
            } else {
                digits_value(u)
            },
        )
    } else {
        None
    }
}

/// The number that `s` spells as `(coefficient, exponent)`: an optional sign, digits with
/// at most one decimal point and at least one digit, then optionally `E` or `e` and an
/// integer exponent. The coefficient is every digit of the mantissa; the exponent is the
/// written one less the number of digits after the point.
pub open spec fn decimal_text(s: Seq<char>) -> Option<(int, int)> {
    let u = unsigned_part(s);
    let e = first_of(u, 'E', 'e');
    let mantissa = u.subrange(0, e);
    let p = first_of(mantissa, '.', '.');
    let whole = mantissa.subrange(0, p);
    let fraction = if p < mantissa.len() {
        mantissa.subrange(p + 1, mantissa.len() as int)
    } else {
        Seq::empty()
    };
    let written_exponent = if e < u.len() {
        signed_integer_text(u.subrange(e + 1, u.len() as int))
    } else {
        Some(0)
    };
    if all_digits(whole) && all_digits(fraction) && whole.len() + fraction.len() > 0
        && written_exponent is Some {
        let c = digits_value(whole + fraction);
        Some(
            (
                if s[0] == '-' {
                    -c
                } else {
                    c
                },
                written_exponent->0 - fraction.len(),
            ),
        )
    } else {
        None
    }
}

/// What `Decimal::parse` returns for `s`: the number it spells, where its coefficient and
/// exponent can be held.
pub open spec fn parsed(s: Seq<char>) -> Option<(int, int)> {
    match decimal_text(s) {
        Some(v) => if in_range(v.0) && i32::MIN <= v.1 <= i32::MAX {
            Some(v)
        } else {
            None
        },
        None => None,
    }
}

proof fn lemma_digits_value_nonneg(s: Seq<char>)
    requires
        all_digits(s),
    ensures
        digits_value(s) >= 0,
    decreases s.len(),
{
    if s.len() > 0 {
        lemma_digits_value_nonneg(s.drop_last());
    }
}

/// A longer string of digits spells no smaller a number.
proof fn lemma_digits_value_prefix(s: Seq<char>, i: int)
    requires
        all_digits(s),
        0 <= i <= s.len(),
    ensures
        digits_value(s.subrange(0, i)) <= digits_value(s),
    decreases s.len(),
{
    if i < s.len() {
        let t = s.drop_last();
        assert(t.subrange(0, i) =~= s.subrange(0, i));
        lemma_digits_value_prefix(t, i);
        lemma_digits_value_nonneg(t);
    } else {
        assert(s.subrange(0, i) =~= s);
    }
}

proof fn lemma_first_of(s: Seq<char>, a: char, b: char, i: int)
    requires
        0 <= i <= s.len(),
        forall|j: int| 0 <= j < i ==> s[j] != a && s[j] != b,
        i == s.len() || s[i] == a || s[i] == b,
    ensures
        first_of(s, a, b) == i,
    decreases s.len(),
{
    if s.len() > 0 && i > 0 {
        lemma_first_of(s.drop_first(), a, b, i - 1);
    }
}

/// The characters of `text`, in order.
pub(crate) fn chars_of(text: &str) -> (r: Vec<char>)
    ensures
        r@ == text@,
{
    let mut v: Vec<char> = Vec::new();
    for c in it: text.chars()
        invariant
            v@ == it.seq().subrange(0, it.index() as int),
    {
        v.push(c);
    }
    v
}

/// A finite base-10 number `coefficient × 10^exponent`. The coefficient is never
/// `i128::MIN`, so that every value has an absolute value and a negation.
#[derive(Clone, Copy, Debug)]
pub struct Decimal {
    coefficient: i128,
    exponent: i32,
}

impl View for Decimal {
    type V = (int, int);

    closed spec fn view(&self) -> (int, int) {
        (self.coefficient as int, self.exponent as int)
    }
}

/// Brings `c` to an exponent `k` smaller: `c × 10^k`, or `None` where that is out of range.
fn rescale(c: i128, k: u32) -> (r: Option<i128>)
    requires
        in_range(c as int),
    ensures
        match r {
            Some(v) => v as int == c * pow10(k as nat),
            None => !in_range(c * pow10(k as nat)),
        },
        r is Some <==> in_range(c * pow10(k as nat)),
{
    if c == 0 {
        assert(c * pow10(k as nat) == 0);
        return Some(0);
    }
    let mut v: i128 = c;
    let mut i: u32 = 0;
    while i < k
        invariant
            in_range(v as int),
            v as int == c * pow10(i as nat),
            i <= k,
            c != 0,
        decreases k - i,
    {
        if v > i128::MAX / 10 || v < -(i128::MAX / 10) {
            proof {
                let rest = (k - i - 1) as nat;
                lemma_pow10_add((i + 1) as nat, rest);
                lemma_pow10_positive(rest);
                assert(pow10((i + 1) as nat) == 10 * pow10(i as nat));
                let big = c * pow10(k as nat);
                assert(big == (v * 10) * pow10(rest)) by (nonlinear_arith)
                    requires
                        big == c * pow10(k as nat),
                        pow10(k as nat) == pow10((i + 1) as nat) * pow10(rest),
                        pow10((i + 1) as nat) == 10 * pow10(i as nat),
                        v as int == c * pow10(i as nat),
                ;
                assert(!in_range(big)) by (nonlinear_arith)
                    requires
                        big == (v * 10) * pow10(rest),
                        pow10(rest) >= 1,
                        v > i128::MAX / 10 || v < -(i128::MAX / 10),
                ;
            }
            return None;
        }
        proof {
            assert(pow10((i + 1) as nat) == 10 * pow10(i as nat));
            assert(v * 10 == c * pow10((i + 1) as nat)) by (nonlinear_arith)
                requires
                    v as int == c * pow10(i as nat),
                    pow10((i + 1) as nat) == 10 * pow10(i as nat),
            ;
        }
        v = v * 10;
        i = i + 1;
    }
    Some(v)
}

/// The characters `v[lo..hi]`.
pub(crate) fn slice_of(v: &Vec<char>, lo: usize, hi: usize) -> (r: Vec<char>)
    requires
        lo <= hi <= v.len(),
    ensures
        r@ == v@.subrange(lo as int, hi as int),
{
    let mut r: Vec<char> = Vec::new();
    let mut i = lo;
    while i < hi
        invariant
            lo <= i <= hi,
            hi <= v.len(),
            r@ == v@.subrange(lo as int, i as int),
        decreases hi - i,
    {
        r.push(v[i]);
        i = i + 1;
    }
    r
}

/// The index of the first `a` or `b` in `v`, or its length.
fn find_either(v: &Vec<char>, a: char, b: char) -> (r: usize)
    ensures
        r as int == first_of(v@, a, b),
        r <= v.len(),
{
    let mut i: usize = 0;
    while i < v.len() && v[i] != a && v[i] != b
        invariant
            i <= v.len(),
            forall|j: int| 0 <= j < i ==> v@[j] != a && v@[j] != b,
        decreases v.len() - i,
    {
        i = i + 1;
    }
    proof {
        lemma_first_of(v@, a, b, i as int);
    }
    i
}

fn check_digits(v: &Vec<char>) -> (r: bool)
    ensures
        r == all_digits(v@),
{
    let mut i: usize = 0;
    while i < v.len()
        invariant
            i <= v.len(),
            forall|j: int| 0 <= j < i ==> is_digit(#[trigger] v@[j]),
        decreases v.len() - i,
    {
        if !('0' <= v[i] && v[i] <= '9') {
            return false;
        }
        i = i + 1;
    }
    true
}

/// The integer that the digits spell, or `None` where it is out of range.
fn digits_to_int(v: &Vec<char>) -> (r: Option<i128>)
    requires
        all_digits(v@),
    ensures
        r is Some <==> in_range(digits_value(v@)),
        r matches Some(x) ==> x as int == digits_value(v@),
{
    let mut acc: i128 = 0;
    let mut i: usize = 0;
    while i < v.len()
        invariant
            i <= v.len(),
            all_digits(v@),
            acc as int == digits_value(v@.subrange(0, i as int)),
            0 <= acc,
        decreases v.len() - i,
    {
        assert(is_digit(v@[i as int]));
        let d = (v[i] as u32 - '0' as u32) as i128;
        let ghost next = v@.subrange(0, i + 1);
        assert(next.drop_last() =~= v@.subrange(0, i as int));
        if acc > (i128::MAX - d) / 10 {
            proof {
                assert(acc * 10 + d > i128::MAX) by (nonlinear_arith)
                    requires
                        acc > (i128::MAX - d) / 10,
                        0 <= d <= 9,
                ;
                lemma_digits_value_prefix(v@, i + 1);
            }
            return None;
        }
        assert(acc * 10 + d <= i128::MAX) by (nonlinear_arith)
            requires
                acc <= (i128::MAX - d) / 10,
                0 <= d <= 9,
                0 <= acc,
        ;
        acc = acc * 10 + d;
        i = i + 1;
    }
    assert(v@.subrange(0, i as int) =~= v@);
    Some(acc)
}

/// The integer that `v` spells (see `signed_integer_text`), where it is in range.
fn signed_integer(v: &Vec<char>) -> (r: Option<i128>)
    ensures
        r is Some <==> (signed_integer_text(v@) is Some && in_range(signed_integer_text(v@)->0)),
        r matches Some(x) ==> x as int == signed_integer_text(v@)->0,
{
    let n = v.len();
    let signed = n > 0 && (v[0] == '-' || v[0] == '+');
    let u = if signed {
        slice_of(v, 1, n)
    } else {
        slice_of(v, 0, n)
    };
    assert(u@ =~= unsigned_part(v@));
    if u.len() == 0 || !check_digits(&u) {
        return None;
    }
    match digits_to_int(&u) {
        Some(x) => {
            if v[0] == '-' {
                Some(-x)
            } else {
                Some(x)
            }
        },
        None => None,
    }
}

/// The text that decimal's `d128` writes for `(coefficient × 10^exponent) / divisor`.
pub uninterp spec fn d128_quotient_text(coefficient: int, exponent: int, divisor: int) -> Seq<
    char,
>;

/// The quotient `a / q` as decimal's `d128` computes it, read back.
pub open spec fn quotient_of(a: (int, int), q: int) -> Option<(int, int)> {
    parsed(d128_quotient_text(a.0, a.1, q))
}

/// Relies on decimal's `d128`: `d128::from_str` reads `<coefficient>E<exponent>` (it never
/// fails), `/` divides by `d128::from(divisor)` in the default context (34 digits, half-even
/// rounding), and `Display` writes the quotient in decNumber's scientific form.
#[verifier::external_body]
fn d128_quotient(coefficient: i128, exponent: i32, divisor: i64) -> (r: String)
    requires
        divisor != 0,
    ensures
        r@ == d128_quotient_text(coefficient as int, exponent as int, divisor as int),
{
    let text = format!("{}E{}", coefficient, exponent);
    let n = <decimal::d128 as std::str::FromStr>::from_str(&text).unwrap_or_default();
    (n / decimal::d128::from(divisor)).to_string()
}

impl Decimal {
    #[verifier::type_invariant]
    spec fn coefficient_in_range(self) -> bool {
        in_range(self.coefficient as int)
    }

    /// `coefficient × 10^exponent`; `None` for the one coefficient that has no negation.
    pub fn new(coefficient: i128, exponent: i32) -> (r: Option<Decimal>)
        ensures
            r is Some <==> coefficient != i128::MIN,
            r matches Some(d) ==> d@ == (coefficient as int, exponent as int),
    {
        if coefficient == i128::MIN {
            None
        } else {
            Some(Decimal { coefficient, exponent })
        }
    }

    /// Zero, `0 × 10^0`.
    pub fn zero() -> (r: Decimal)
        ensures
            r@ == (0int, 0int),
    {
        Decimal { coefficient: 0, exponent: 0 }
    }

    /// The integer `n`, `n × 10^0`.
    pub fn from_int(n: i64) -> (r: Decimal)
        ensures
            r@ == (n as int, 0int),
    {
        Decimal { coefficient: n as i128, exponent: 0 }
    }

    pub fn coefficient(&self) -> (r: i128)
        ensures
            r as int == self@.0,
            in_range(r as int),
    {
        proof {
            use_type_invariant(self);
        }
        self.coefficient
    }

    pub fn exponent(&self) -> (r: i32)
        ensures
            r as int == self@.1,
    {
        self.exponent
    }

    /// Whether the number is below zero.
    pub fn is_negative(&self) -> (r: bool)
        ensures
            r == (self@.0 < 0),
    {
        self.coefficient < 0
    }

    /// The absolute value, at the same exponent.
    pub fn abs(&self) -> (r: Decimal)
        ensures
            r@ == magnitude(self@),
    {
        proof {
            use_type_invariant(self);
        }
        let c = if self.coefficient < 0 {
            -self.coefficient
        } else {
            self.coefficient
        };
        Decimal { coefficient: c, exponent: self.exponent }
    }

    /// The exact sum at the smaller exponent, or `None` where a coefficient would leave the range.
    pub fn checked_add(&self, other: &Decimal) -> (r: Option<Decimal>)
        ensures
            r is Some <==> sum_fits(self@, other@),
            r matches Some(d) ==> d@ == sum_of(self@, other@),
    {
        proof {
            use_type_invariant(self);
            use_type_invariant(other);
        }
        let m: i32 = if self.exponent <= other.exponent {
            self.exponent
        } else {
            other.exponent
        };
        let ka = (self.exponent as i64 - m as i64) as u32;
        let kb = (other.exponent as i64 - m as i64) as u32;
        let a = match rescale(self.coefficient, ka) {
            Some(a) => a,
            None => return None,
        };
        let b = match rescale(other.coefficient, kb) {
            Some(b) => b,
            None => return None,
        };
        match a.checked_add(b) {
            Some(s) => {
                if s == i128::MIN {
                    None
                } else {
                    Some(Decimal { coefficient: s, exponent: m })
                }
            },
            None => None,
        }
    }

    /// The exact difference at the smaller exponent, or `None` where a coefficient would leave
    /// the range.
    pub fn checked_sub(&self, other: &Decimal) -> (r: Option<Decimal>)
        ensures
            r is Some <==> difference_fits(self@, other@),
            r matches Some(d) ==> d@ == difference_of(self@, other@),
    {
        proof {
            use_type_invariant(self);
            use_type_invariant(other);
        }
        let m: i32 = if self.exponent <= other.exponent {
            self.exponent
        } else {
            other.exponent
        };
        let ka = (self.exponent as i64 - m as i64) as u32;
        let kb = (other.exponent as i64 - m as i64) as u32;
        let a = match rescale(self.coefficient, ka) {
            Some(a) => a,
            None => return None,
        };
        let b = match rescale(other.coefficient, kb) {
            Some(b) => b,
            None => return None,
        };
        match a.checked_sub(b) {
            Some(s) => {
                if s == i128::MIN {
                    None
                } else {
                    Some(Decimal { coefficient: s, exponent: m })
                }
            },
            None => None,
        }
    }

    /// The number times `q`, at the same exponent, or `None` where the coefficient would leave
    /// the range.
    pub fn checked_mul_int(&self, q: i64) -> (r: Option<Decimal>)
        ensures
            r is Some <==> in_range(scaled_by(self@, q as int).0),
            r matches Some(d) ==> d@ == scaled_by(self@, q as int),
    {
        match self.coefficient.checked_mul(q as i128) {
            Some(p) => {
                if p == i128::MIN {
                    None
                } else {
                    Some(Decimal { coefficient: p, exponent: self.exponent })
                }
            },
            None => None,
        }
    }

    /// The quotient `self / q` as decimal's `d128` computes it (34 significant digits),
    /// read back; `None` where `q` is zero or the quotient cannot be held.
    pub fn checked_div_int(&self, q: i64) -> (r: Option<Decimal>)
        ensures
            q == 0 ==> r is None,
            q != 0 ==> (r is Some <==> quotient_of(self@, q as int) is Some),
            r matches Some(d) ==> d@ == quotient_of(self@, q as int)->0,
    {
        if q == 0 {
            return None;
        }
        let text = d128_quotient(self.coefficient, self.exponent, q);
        Decimal::parse(&text)
    }

    /// The same value with its trailing zero digits removed.
    pub fn reduce(&self) -> (r: Decimal)
        ensures
            r@ == normal_form(self@),
    {
        proof {
            use_type_invariant(self);
        }
        if self.coefficient == 0 {
            return Decimal::zero();
        }
        let mut c = self.coefficient;
        let mut e = self.exponent;
        while c % 10 == 0 && e < i32::MAX
            invariant
                c != 0,
                in_range(c as int),
                normal_form((c as int, e as int)) == normal_form(self@),
            decreases i32::MAX - e,
        {
            c = c / 10;
            e = e + 1;
        }
        Decimal { coefficient: c, exponent: e }
    }

    /// Reads the number that `text` spells (see `decimal_text`): `None` where it spells none,
    /// or where its coefficient or exponent cannot be held.
    pub fn parse(text: &str) -> (r: Option<Decimal>)
        ensures
            r is Some <==> parsed(text@) is Some,
            r matches Some(d) ==> d@ == parsed(text@)->0,
    {
        let s = chars_of(text);
        Decimal::parse_chars(&s)
    }

    /// `Decimal::parse` on the characters `s`.
    #[verifier::rlimit(40)]
    pub(crate) fn parse_chars(s: &Vec<char>) -> (r: Option<Decimal>)
        ensures
            r is Some <==> parsed(s@) is Some,
            r matches Some(d) ==> d@ == parsed(s@)->0,
    {
        let n = s.len();
        let signed = n > 0 && (s[0] == '-' || s[0] == '+');
        let u = if signed {
            slice_of(s, 1, n)
        } else {
            slice_of(s, 0, n)
        };
        assert(u@ =~= unsigned_part(s@));
        let e = find_either(&u, 'E', 'e');
        let mantissa = slice_of(&u, 0, e);
        let p = find_either(&mantissa, '.', '.');
        let whole = slice_of(&mantissa, 0, p);
        let fraction = if p < mantissa.len() {
            slice_of(&mantissa, p + 1, mantissa.len())
        } else {
            Vec::new()
        };
        assert(fraction@ =~= (if p < mantissa.len() {
            mantissa@.subrange(p + 1, mantissa.len() as int)
        } else {
            Seq::empty()
        }));
        if !check_digits(&whole) || !check_digits(&fraction) || (whole.len() == 0 && fraction.len()
            == 0) {
            return None;
        }
        let written: i128 = if e < u.len() {
            let x = slice_of(&u, e + 1, u.len());
            match signed_integer(&x) {
                Some(w) => w,
                None => {
                    proof {
                        if signed_integer_text(x@) is Some {
                            assert(fraction.len() <= usize::MAX);
                        }
                    }
                    return None;
                },
            }
        } else {
            0
        };
        let mut digits = whole.clone();
        let mut rest = fraction.clone();
        digits.append(&mut rest);
        assert(digits@ =~= whole@ + fraction@);
        assert(all_digits(digits@));
        let c = match digits_to_int(&digits) {
            Some(c) => c,
            None => return None,
        };
        let coefficient = if n > 0 && s[0] == '-' {
            -c
        } else {
            c
        };
        let f = fraction.len() as i128;
        if written < i32::MIN as i128 + f || written > i32::MAX as i128 + f {
            return None;
        }
        Some(Decimal { coefficient, exponent: (written - f) as i32 })
    }

    /// Whether the two numbers have the same value, whatever their exponents.
    pub fn same_value(&self, other: &Decimal) -> (r: bool)
        ensures
            r == (normal_form(self@) == normal_form(other@)),
    {
        let a = self.reduce();
        let b = other.reduce();
        a.coefficient == b.coefficient && a.exponent == b.exponent
    }
}

} // verus!
