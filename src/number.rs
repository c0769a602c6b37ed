//! Script numbers: decimal fixed-point values with six fractional digits,
//! extended with the two infinities and NaN so that division by zero and
//! overflow behave as they do for floating-point numbers.
use vstd::prelude::*;

verus! {

/// Number of units in one: a `Fixed(m)` stands for `m / SCALE`.
pub const SCALE: i64 = 1_000_000;

/// Number of fractional decimal digits kept.
pub const FRACTION_DIGITS: usize = 6;

#[derive(Debug, Clone, Copy, PartialEq, Eq, Structural)]
pub enum Number {
    Fixed(i64),
    PosInf,
    NegInf,
    NaN,
}

/// The number closest in kind to the scaled integer `m`: values beyond the
/// range of `i64` saturate to an infinity.
pub open spec fn from_scaled(m: int) -> Number {
    if m > i64::MAX {
        Number::PosInf
    } else if m < -(i64::MAX as int) {
        Number::NegInf
    } else {
        Number::Fixed(m as i64)
    }
}

/// Division rounding toward zero.
pub open spec fn trunc_div(n: int, d: int) -> int
    recommends
        d != 0,
{
    let q = abs(n) / abs(d);
    if (n < 0) != (d < 0) {
        -q
    } else {
        q
    }
}

pub open spec fn abs(n: int) -> int {
    if n < 0 {
        -n
    } else {
        n
    }
}

/// Sign of a non-NaN number: -1, 0 or 1.
pub open spec fn sign(a: Number) -> int {
    match a {
        Number::Fixed(x) => if x > 0 {
            1
        } else if x < 0 {
            -1
        } else {
            0
        },
        Number::PosInf => 1,
        Number::NegInf => -1,
        Number::NaN => 0,
    }
}

pub open spec fn inf_of_sign(s: int) -> Number {
    if s > 0 {
        Number::PosInf
    } else if s < 0 {
        Number::NegInf
    } else {
        Number::NaN
    }
}

pub open spec fn spec_add(a: Number, b: Number) -> Number {
    match (a, b) {
        (Number::Fixed(x), Number::Fixed(y)) => from_scaled(x + y),
        (Number::NaN, _) => Number::NaN,
        (_, Number::NaN) => Number::NaN,
        (Number::PosInf, Number::NegInf) => Number::NaN,
        (Number::NegInf, Number::PosInf) => Number::NaN,
        (Number::PosInf, _) => Number::PosInf,
        (_, Number::PosInf) => Number::PosInf,
        _ => Number::NegInf,
    }
}

pub open spec fn spec_neg(a: Number) -> Number {
    match a {
        Number::Fixed(x) => from_scaled(-x),
        Number::PosInf => Number::NegInf,
        Number::NegInf => Number::PosInf,
        Number::NaN => Number::NaN,
    }
}

pub open spec fn spec_sub(a: Number, b: Number) -> Number {
    spec_add(a, spec_neg(b))
}

pub open spec fn spec_mul(a: Number, b: Number) -> Number {
    match (a, b) {
        (Number::Fixed(x), Number::Fixed(y)) => from_scaled(trunc_div(x * y, SCALE as int)),
        (Number::NaN, _) => Number::NaN,
        (_, Number::NaN) => Number::NaN,
        _ => inf_of_sign(sign(a) * sign(b)),
    }
}

pub open spec fn spec_div(a: Number, b: Number) -> Number {
    match (a, b) {
        (Number::Fixed(x), Number::Fixed(y)) => if y == 0 {
            inf_of_sign(sign(a))
        } else {
            from_scaled(trunc_div(x * SCALE, y as int))
        },
        (Number::NaN, _) => Number::NaN,
        (_, Number::NaN) => Number::NaN,
        (Number::Fixed(_), _) => Number::Fixed(0),
        (_, Number::Fixed(y)) => inf_of_sign(if y < 0 {
            -sign(a)
        } else {
            sign(a)
        }),
        _ => Number::NaN,
    }
}

/// Strict order on the extended line; false whenever NaN takes part.
pub open spec fn spec_lt(a: Number, b: Number) -> bool {
    match (a, b) {
        (Number::Fixed(x), Number::Fixed(y)) => x < y,
        (Number::NegInf, Number::Fixed(_)) => true,
        (Number::NegInf, Number::PosInf) => true,
        (Number::Fixed(_), Number::PosInf) => true,
        _ => false,
    }
}

/// Numeric equality: NaN equals nothing, not even itself.
pub open spec fn spec_num_eq(a: Number, b: Number) -> bool {
    a != Number::NaN && a == b
}

pub open spec fn spec_le(a: Number, b: Number) -> bool {
    spec_lt(a, b) || spec_num_eq(a, b)
}

/// The decimal digit character of `d`, for `d < 10`.
pub open spec fn digit_char(d: int) -> char {
    ((d + 48) as u8) as char
}

pub open spec fn is_digit(c: char) -> bool {
    '0' <= c && c <= '9'
}

pub open spec fn digit_value(c: char) -> int {
    c as int - 48
}

/// Decimal digits of `n`, most significant first, without leading zeros.
pub open spec fn nat_digits(n: nat) -> Seq<char>
    decreases n,
{
    if n < 10 {
        seq![digit_char(n as int)]
    } else {
        nat_digits(n / 10).push(digit_char((n % 10) as int))
    }
}

/// Exactly `k` decimal digits of `n` (modulo `10^k`), zero-padded on the left.
pub open spec fn padded_digits(n: nat, k: nat) -> Seq<char>
    decreases k,
{
    if k == 0 {
        Seq::empty()
    } else {
        padded_digits(n / 10, (k - 1) as nat).push(digit_char((n % 10) as int))
    }
}

/// `s` without its trailing zero characters.
pub open spec fn trim_zeros(s: Seq<char>) -> Seq<char>
    decreases s.len(),
{
    if s.len() > 0 && s.last() == '0' {
        trim_zeros(s.drop_last())
    } else {
        s
    }
}

/// Canonical text of a number: integral values without a fraction, other
/// finite values with their fractional digits, trailing zeros removed.
pub open spec fn render_number(a: Number) -> Seq<char> {
    match a {
        Number::NaN => seq!['N', 'a', 'N'],
        Number::PosInf => seq!['i', 'n', 'f'],
        Number::NegInf => seq!['-', 'i', 'n', 'f'],
        Number::Fixed(m) => {
            let mag = abs(m as int) as nat;
            let sign_part = if m < 0 { seq!['-'] } else { Seq::<char>::empty() };
            let whole = nat_digits(mag / (SCALE as nat));
            let frac = mag % (SCALE as nat);
            if frac == 0 {
                sign_part + whole
            } else {
                sign_part + whole + seq!['.'] + trim_zeros(padded_digits(frac, FRACTION_DIGITS as nat))
            }
        },
    }
}

/// Value of a sequence of decimal digit characters.
pub open spec fn digits_value(s: Seq<char>) -> int
    decreases s.len(),
{
    if s.len() == 0 {
        0
    } else {
        digits_value(s.drop_last()) * 10 + digit_value(s.last())
    }
}

/// The first six fractional digits, padded with zeros on the right.
pub open spec fn fraction_window(s: Seq<char>) -> Seq<char>
    decreases FRACTION_DIGITS - s.len(),
{
    if s.len() >= FRACTION_DIGITS {
        s.subrange(0, FRACTION_DIGITS as int)
    } else {
        fraction_window(s.push('0'))
    }
}

/// The number written `whole.frac` in decimal; fractional digits past the
/// sixth are dropped.
pub open spec fn decimal_value(whole: Seq<char>, frac: Seq<char>) -> Number {
    from_scaled(digits_value(whole) * SCALE + digits_value(fraction_window(frac)))
}

pub open spec fn all_digits(s: Seq<char>) -> bool {
    forall|i: int| 0 <= i < s.len() ==> is_digit(#[trigger] s[i])
}

fn saturate(m: i128) -> (r: Number)
    ensures
        r == from_scaled(m as int),
{
    if m > i64::MAX as i128 {
        Number::PosInf
    } else if m < -(i64::MAX as i128) {
        Number::NegInf
    } else {
        Number::Fixed(m as i64)
    }
}

fn trunc_div_exec(n: i128, d: i128) -> (r: i128)
    requires
        d != 0,
        -0x4000_0000_0000_0000_0000_0000_0000_0001 < n < 0x4000_0000_0000_0000_0000_0000_0000_0001,
        -0x4000_0000_0000_0000_0000_0000_0000_0001 < d < 0x4000_0000_0000_0000_0000_0000_0000_0001,
    ensures
        r == trunc_div(n as int, d as int),
{
    let an: u128 = if n < 0 { (-n) as u128 } else { n as u128 };
    let ad: u128 = if d < 0 { (-d) as u128 } else { d as u128 };
    let q: u128 = an / ad;
    assert(q <= an) by (nonlinear_arith)
        requires q == an / ad, ad >= 1;
    let qi: i128 = q as i128;
    if (n < 0) != (d < 0) {
        -qi
    } else {
        qi
    }
}

fn sign_exec(a: Number) -> (r: i8)
    ensures
        r == sign(a),
{
    match a {
        Number::Fixed(x) => if x > 0 {
            1
        } else if x < 0 {
            -1
        } else {
            0
        },
        Number::PosInf => 1,
        Number::NegInf => -1,
        Number::NaN => 0,
    }
}

fn inf_of_sign_exec(s: i8) -> (r: Number)
    ensures
        r == inf_of_sign(s as int),
{
    if s > 0 {
        Number::PosInf
    } else if s < 0 {
        Number::NegInf
    } else {
        Number::NaN
    }
}

impl Number {
    /// Sum, with the infinities and NaN of floating-point addition.
    pub fn add(self, b: Number) -> (r: Number)
        ensures
            r == spec_add(self, b),
    {
        match (self, b) {
            (Number::Fixed(x), Number::Fixed(y)) => saturate(x as i128 + y as i128),
            (Number::NaN, _) => Number::NaN,
            (_, Number::NaN) => Number::NaN,
            (Number::PosInf, Number::NegInf) => Number::NaN,
            (Number::NegInf, Number::PosInf) => Number::NaN,
            (Number::PosInf, _) => Number::PosInf,
            (_, Number::PosInf) => Number::PosInf,
            _ => Number::NegInf,
        }
    }

    pub fn neg(self) -> (r: Number)
        ensures
            r == spec_neg(self),
    {
        match self {
            Number::Fixed(x) => saturate(-(x as i128)),
            Number::PosInf => Number::NegInf,
            Number::NegInf => Number::PosInf,
            Number::NaN => Number::NaN,
        }
    }

    pub fn sub(self, b: Number) -> (r: Number)
        ensures
            r == spec_sub(self, b),
    {
        self.add(b.neg())
    }

    /// Product, truncated toward zero to six fractional digits.
    pub fn mul(self, b: Number) -> (r: Number)
        ensures
            r == spec_mul(self, b),
    {
        match (self, b) {
            (Number::Fixed(x), Number::Fixed(y)) => {
                assert(-0x4000_0000_0000_0000_0000_0000_0000_0001 < (x as int) * (y as int) < 0x4000_0000_0000_0000_0000_0000_0000_0001)
                    by (nonlinear_arith)
                    requires i64::MIN <= x <= i64::MAX, i64::MIN <= y <= i64::MAX;
                let p: i128 = x as i128 * y as i128;
                saturate(trunc_div_exec(p, SCALE as i128))
            },
            (Number::NaN, _) => Number::NaN,
            (_, Number::NaN) => Number::NaN,
            _ => {
                let sa = sign_exec(self);
                let sb = sign_exec(b);
                let s: i8 = if sa == 0 || sb == 0 {
                    0
                } else if sa == sb {
                    1
                } else {
                    -1
                };
                assert(s as int == sa as int * sb as int) by (nonlinear_arith)
                    requires
                        -1 <= sa <= 1, -1 <= sb <= 1,
                        s == (if sa == 0 || sb == 0 { 0int } else if sa == sb { 1int } else { -1int });
                inf_of_sign_exec(s)
            },
        }
    }

    /// Quotient, truncated toward zero; division by zero gives an infinity,
    /// or NaN for zero divided by zero.
    pub fn div(self, b: Number) -> (r: Number)
        ensures
            r == spec_div(self, b),
    {
        match (self, b) {
            (Number::Fixed(x), Number::Fixed(y)) => if y == 0 {
                inf_of_sign_exec(sign_exec(self))
            } else {
                saturate(trunc_div_exec(x as i128 * SCALE as i128, y as i128))
            },
            (Number::NaN, _) => Number::NaN,
            (_, Number::NaN) => Number::NaN,
            (Number::Fixed(_), _) => Number::Fixed(0),
            (_, Number::Fixed(y)) => {
                let s = sign_exec(self);
                inf_of_sign_exec(if y < 0 { -s } else { s })
            },
            _ => Number::NaN,
        }
    }

    pub fn lt(self, b: Number) -> (r: bool)
        ensures
            r == spec_lt(self, b),
    {
        match (self, b) {
            (Number::Fixed(x), Number::Fixed(y)) => x < y,
            (Number::NegInf, Number::Fixed(_)) => true,
            (Number::NegInf, Number::PosInf) => true,
            (Number::Fixed(_), Number::PosInf) => true,
            _ => false,
        }
    }

    pub fn num_eq(self, b: Number) -> (r: bool)
        ensures
            r == spec_num_eq(self, b),
    {
        match (self, b) {
            (Number::Fixed(x), Number::Fixed(y)) => x == y,
            (Number::PosInf, Number::PosInf) => true,
            (Number::NegInf, Number::NegInf) => true,
            _ => false,
        }
    }

    pub fn le(self, b: Number) -> (r: bool)
        ensures
            r == spec_le(self, b),
    {
        self.lt(b) || self.num_eq(b)
    }

    /// The number of an integer.
    pub fn from_int(n: i64) -> (r: Number)
        ensures
            r == from_scaled(n * SCALE),
    {
        assert(-0x1_0000_0000_0000_0000_0000_0000 < (n as int) * 1_000_000 < 0x1_0000_0000_0000_0000_0000_0000) by (nonlinear_arith)
            requires i64::MIN <= n <= i64::MAX;
        saturate(n as i128 * SCALE as i128)
    }

    /// Canonical text of the number.
    pub fn render(self) -> (r: Vec<char>)
        ensures
            r@ == render_number(self),
    {
        match self {
            Number::NaN => vec!['N', 'a', 'N'],
            Number::PosInf => vec!['i', 'n', 'f'],
            Number::NegInf => vec!['-', 'i', 'n', 'f'],
            Number::Fixed(m) => {
                let mag: u64 = if m < 0 { (-(m as i128)) as u64 } else { m as u64 };
                let mut out: Vec<char> = Vec::new();
                if m < 0 {
                    out.push('-');
                }
                let whole = digits_of(mag / (SCALE as u64));
                append_chars(&mut out, &whole);
                let frac: u64 = mag % (SCALE as u64);
                if frac != 0 {
                    out.push('.');
                    let mut fd = padded_digits_of(frac, FRACTION_DIGITS);
                    trim_zeros_exec(&mut fd);
                    append_chars(&mut out, &fd);
                }
                proof {
                    let sign_part = if m < 0 { seq!['-'] } else { Seq::<char>::empty() };
                    assert(mag as int == abs(m as int));
                    if frac == 0 {
                        assert(out@ =~= sign_part + nat_digits((mag / (SCALE as u64)) as nat));
                    } else {
                        assert(out@ =~= sign_part + nat_digits((mag / (SCALE as u64)) as nat) + seq!['.']
                            + trim_zeros(padded_digits(frac as nat, FRACTION_DIGITS as nat)));
                    }
                }
                out
            },
        }
    }
}

/// Appends the characters of `src` to `dst`.
pub fn append_chars(dst: &mut Vec<char>, src: &Vec<char>)
    ensures
        final(dst)@ == old(dst)@ + src@,
{
    let mut i: usize = 0;
    while i < src.len()
        invariant
            i <= src.len(),
            dst@ == old(dst)@ + src@.subrange(0, i as int),
        decreases src.len() - i,
    {
        dst.push(src[i]);
        i += 1;
        assert(dst@ =~= old(dst)@ + src@.subrange(0, i as int));
    }
    assert(src@.subrange(0, i as int) =~= src@);
}

fn digit_char_exec(d: u64) -> (c: char)
    requires
        d < 10,
    ensures
        c == digit_char(d as int),
{
    ((d + 48) as u8) as char
}

/// Decimal digits of `n`.
pub fn digits_of(n: u64) -> (r: Vec<char>)
    ensures
        r@ == nat_digits(n as nat),
    decreases n,
{
    if n < 10 {
        vec![digit_char_exec(n)]
    } else {
        let mut r = digits_of(n / 10);
        r.push(digit_char_exec(n % 10));
        r
    }
}

fn padded_digits_of(n: u64, k: usize) -> (r: Vec<char>)
    ensures
        r@ == padded_digits(n as nat, k as nat),
    decreases k,
{
    if k == 0 {
        Vec::new()
    } else {
        let mut r = padded_digits_of(n / 10, k - 1);
        r.push(digit_char_exec(n % 10));
        r
    }
}

fn trim_zeros_exec(s: &mut Vec<char>)
    ensures
        final(s)@ == trim_zeros(old(s)@),
{
    while s.len() > 0 && s[s.len() - 1] == '0'
        invariant
            trim_zeros(s@) == trim_zeros(old(s)@),
        decreases s.len(),
    {
        s.pop();
    }
}

} // verus!
