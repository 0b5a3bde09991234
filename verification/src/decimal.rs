//! Fixed-point decimal magnitudes.
//!
//! Every number of a log line (a count of drinks, a percentage, a volume) is kept as a
//! whole count of millionths. Arithmetic rounds toward zero and saturates at the
//! largest magnitude, so every operation is total and has an exact result.

use crate::text::chars_of;
use vstd::prelude::*;

verus! {

/// How many units make one whole: magnitudes count millionths.
pub const SCALE: u64 = 1_000_000;

/// A non-negative decimal magnitude, held as a count of millionths.
#[derive(Clone, Copy, Debug, PartialEq, Eq, Structural)]
pub struct Decimal {
    pub micros: u64,
}

/// `n` brought into the range of a magnitude.
pub open spec fn saturate(n: int) -> u64 {
    if n < 0 {
        0u64
    } else if n > u64::MAX {
        u64::MAX
    } else {
        n as u64
    }
}

/// Ten to the power `n`.
pub open spec fn pow10(n: nat) -> nat
    decreases n,
{
    if n == 0 {
        1
    } else {
        10 * pow10((n - 1) as nat)
    }
}

impl Decimal {
    /// The sum of two magnitudes.
    pub open spec fn sum(self, rhs: Decimal) -> Decimal {
        Decimal { micros: saturate(self.micros + rhs.micros) }
    }

    /// The product of two magnitudes, rounded toward zero.
    pub open spec fn product(self, rhs: Decimal) -> Decimal {
        Decimal { micros: saturate(self.micros * rhs.micros / SCALE as int) }
    }

    /// The quotient of two magnitudes, rounded toward zero; the largest magnitude
    /// where the divisor is zero.
    pub open spec fn quotient(self, rhs: Decimal) -> Decimal {
        if rhs.micros == 0 {
            Decimal { micros: u64::MAX }
        } else {
            Decimal { micros: saturate(self.micros * SCALE / rhs.micros as int) }
        }
    }

    /// The magnitude of the number one.
    pub open spec fn one() -> Decimal {
        Decimal { micros: SCALE }
    }

    /// The magnitude in whole hundredths, what lies below a hundredth cut off.
    pub open spec fn hundredths_of(self) -> u64 {
        self.micros / 10_000
    }

    pub fn from_micros(micros: u64) -> (d: Decimal)
        ensures
            d.micros == micros,
    {
        Decimal { micros }
    }

    /// The magnitude of a whole number.
    pub fn whole(n: u64) -> (d: Decimal)
        ensures
            d.micros == saturate(n * SCALE),
    {
        match n.checked_mul(SCALE) {
            Some(micros) => Decimal { micros },
            None => Decimal { micros: u64::MAX },
        }
    }

    pub fn plus(self, rhs: Decimal) -> (d: Decimal)
        ensures
            d == self.sum(rhs),
    {
        match self.micros.checked_add(rhs.micros) {
            Some(micros) => Decimal { micros },
            None => Decimal { micros: u64::MAX },
        }
    }

    pub fn times(self, rhs: Decimal) -> (d: Decimal)
        ensures
            d == self.product(rhs),
    {
        let a: u64 = self.micros;
        let b: u64 = rhs.micros;
        assert(a * b <= u64::MAX * u64::MAX) by (nonlinear_arith)
            requires
                a <= u64::MAX,
                b <= u64::MAX,
        ;
        let wide: u128 = (a as u128) * (b as u128) / (SCALE as u128);
        if wide > u64::MAX as u128 {
            Decimal { micros: u64::MAX }
        } else {
            Decimal { micros: wide as u64 }
        }
    }

    pub fn divided_by(self, rhs: Decimal) -> (d: Decimal)
        ensures
            d == self.quotient(rhs),
    {
        if rhs.micros == 0 {
            return Decimal { micros: u64::MAX };
        }
        assert(self.micros * SCALE <= u64::MAX * 1_000_000) by (nonlinear_arith)
            requires
                self.micros <= u64::MAX,
                SCALE == 1_000_000,
        ;
        let wide: u128 = (self.micros as u128) * (SCALE as u128) / (rhs.micros as u128);
        if wide > u64::MAX as u128 {
            Decimal { micros: u64::MAX }
        } else {
            Decimal { micros: wide as u64 }
        }
    }

    pub fn hundredths(self) -> (n: u64)
        ensures
            n == self.hundredths_of(),
    {
        self.micros / 10_000
    }
}

/// The ten ASCII digits.
pub open spec fn is_digit(c: char) -> bool {
    '0' <= c <= '9'
}

/// The number that a digit stands for.
pub open spec fn digit_value(c: char) -> nat {
    (c as int - '0' as int) as nat
}

/// Whether a text holds digits only.
pub open spec fn all_digits(s: Seq<char>) -> bool {
    forall|i: int| 0 <= i < s.len() ==> is_digit(#[trigger] s[i])
}

/// The number that a run of digits writes in base ten.
pub open spec fn digits_value(s: Seq<char>) -> nat
    decreases s.len(),
{
    if s.len() == 0 {
        0
    } else {
        digits_value(s.drop_last()) * 10 + digit_value(s.last())
    }
}

/// The millionths that the digits after a decimal point stand for: the first six
/// count, what follows them is cut off.
pub open spec fn fraction_micros(f: Seq<char>) -> nat {
    if f.len() >= 6 {
        digits_value(f.take(6))
    } else {
        digits_value(f) * pow10((6 - f.len()) as nat)
    }
}

/// Whether `s` is digits, a point at `k`, and digits again.
pub open spec fn splits_at(s: Seq<char>, k: int) -> bool {
    &&& 0 < k < s.len() - 1
    &&& s[k] == '.'
    &&& all_digits(s.take(k))
    &&& all_digits(s.skip(k + 1))
}

/// The grammar of a magnitude: one or more digits, then optionally a point and one or
/// more digits.
pub open spec fn is_decimal_text(s: Seq<char>) -> bool {
    (s.len() > 0 && all_digits(s)) || exists|k: int| splits_at(s, k)
}

/// The millionths that a text of the grammar stands for.
pub open spec fn decimal_text_micros(s: Seq<char>) -> nat {
    if all_digits(s) {
        digits_value(s) * SCALE as nat
    } else {
        let k = choose|k: int| splits_at(s, k);
        digits_value(s.take(k)) * SCALE as nat + fraction_micros(s.skip(k + 1))
    }
}

/// The magnitude that a text writes: `None` where the text is not of the grammar, and
/// where the number is too large to hold.
pub open spec fn parsed_decimal(s: Seq<char>) -> Option<Decimal> {
    if is_decimal_text(s) && decimal_text_micros(s) <= u64::MAX {
        Some(Decimal { micros: decimal_text_micros(s) as u64 })
    } else {
        None
    }
}

proof fn lemma_split_unique(s: Seq<char>, k1: int, k2: int)
    requires
        splits_at(s, k1),
        splits_at(s, k2),
    ensures
        k1 == k2,
{
    if k1 < k2 {
        assert(is_digit(s.take(k2)[k1]));
    } else if k2 < k1 {
        assert(is_digit(s.take(k1)[k2]));
    }
}

proof fn lemma_no_split(s: Seq<char>, i: int)
    requires
        0 <= i < s.len(),
        forall|j: int| 0 <= j < i ==> is_digit(s[j]),
        !is_digit(s[i]),
    ensures
        !all_digits(s),
        forall|k: int| splits_at(s, k) ==> k == i,
{
    assert forall|k: int| splits_at(s, k) implies k == i by {
        if k < i {
            assert(is_digit(s[k]));
        } else if k > i {
            assert(is_digit(s.take(k)[i]));
        }
    }
}

fn digit_of(c: char) -> (d: Option<u8>)
    ensures
        d is Some == is_digit(c),
        d matches Some(v) ==> v == digit_value(c) && v < 10,
{
    if '0' <= c && c <= '9' {
        Some((c as u32 - '0' as u32) as u8)
    } else {
        None
    }
}

/// What a magnitude may reach before it is known to be too large.
const LIMIT: u128 = 0x1_0000_0000_0000_0000;

impl Decimal {
    /// Reads a magnitude written as digits, optionally followed by a point and more
    /// digits.
    pub fn parse(text: &str) -> (d: Option<Decimal>)
        ensures
            d == parsed_decimal(text@),
    {
        let chars = chars_of(text);
        let n: usize = chars.len();
        let ghost s = chars@;
        let mut whole: u128 = 0;
        let mut i: usize = 0;
        while i < n
            invariant
                s == chars@,
                n == s.len(),
                0 <= i <= n,
                forall|j: int| 0 <= j < i ==> is_digit(s[j]),
                whole <= LIMIT,
                whole == if digits_value(s.take(i as int)) > LIMIT {
                    LIMIT as nat
                } else {
                    digits_value(s.take(i as int))
                },
            ensures
                i == n || !is_digit(s[i as int]),
            decreases n - i,
        {
            match digit_of(chars[i]) {
                Some(v) => {
                    proof {
                        assert(s.take(i + 1).drop_last() =~= s.take(i as int));
                        assert(s.take(i + 1).last() == s[i as int]);
                    }
                    let next: u128 = whole * 10 + v as u128;
                    whole = if next > LIMIT {
                        LIMIT
                    } else {
                        next
                    };
                    i += 1;
                },
                None => {
                    break ;
                },
            }
        }
        if i == 0 {
            proof {
                if s.len() > 0 {
                    lemma_no_split(s, 0);
                }
            }
            return None;
        }
        if i == n {
            proof {
                assert(s.take(n as int) =~= s);
                assert(all_digits(s));
            }
            if whole > (u64::MAX / SCALE) as u128 {
                return None;
            }
            return Some(Decimal { micros: (whole * SCALE as u128) as u64 });
        }
        proof {
            lemma_no_split(s, i as int);
        }
        if chars[i] != '.' {
            return None;
        }
        let start: usize = i + 1;
        let ghost f = s.skip(start as int);
        let mut fraction: u128 = 0;
        let mut kept: usize = 0;
        let mut j: usize = start;
        while j < n
            invariant
                s == chars@,
                n == s.len(),
                f == s.skip(start as int),
                start <= j <= n,
                forall|k: int| start <= k < j ==> is_digit(s[k]),
                kept == if j - start > 6 {
                    6
                } else {
                    j - start
                },
                fraction == digits_value(f.take(kept as int)),
                fraction < pow10(kept as nat),
                pow10(kept as nat) <= 1_000_000,
            ensures
                j == n || !is_digit(s[j as int]),
            decreases n - j,
        {
            match digit_of(chars[j]) {
                Some(v) => {
                    if kept < 6 {
                        proof {
                            assert(f.take(kept + 1).drop_last() =~= f.take(kept as int));
                            assert(f.take(kept + 1).last() == s[j as int]);
                            reveal_with_fuel(pow10, 8);
                        }
                        fraction = fraction * 10 + v as u128;
                        kept += 1;
                    }
                    j += 1;
                },
                None => {
                    break ;
                },
            }
        }
        if j == start || j < n {
            proof {
                if j == start {
                    assert(!(start < s.len() - 1 && all_digits(s.skip(start as int)))) by {
                        if start < s.len() {
                            assert(s.skip(start as int)[0] == s[start as int]);
                        }
                    }
                } else {
                    assert(s.skip(start as int)[j - start] == s[j as int]);
                }
                assert(!splits_at(s, i as int));
            }
            return None;
        }
        proof {
            reveal_with_fuel(pow10, 8);
            assert(all_digits(s.take(i as int)));
            assert(all_digits(f)) by {
                assert forall|k: int| 0 <= k < f.len() implies is_digit(#[trigger] f[k]) by {
                    assert(f[k] == s[start + k]);
                }
            }
            assert(splits_at(s, i as int));
            let k = choose|k: int| splits_at(s, k);
            lemma_split_unique(s, k, i as int);
            if f.len() < 6 {
                assert(f.take(kept as int) =~= f);
            }
        }
        let mut scaled: u128 = fraction;
        let mut width: usize = kept;
        assert(scaled == fraction * pow10((width - kept) as nat)) by (nonlinear_arith)
            requires
                scaled == fraction,
                pow10((width - kept) as nat) == 1,
        ;
        while width < 6
            invariant
                kept <= width <= 6,
                scaled == fraction * pow10((width - kept) as nat),
                scaled < pow10(width as nat),
                pow10(width as nat) <= 1_000_000,
            decreases 6 - width,
        {
            proof {
                reveal_with_fuel(pow10, 8);
                assert(fraction * pow10((width + 1 - kept) as nat) == fraction * pow10(
                    (width - kept) as nat,
                ) * 10) by (nonlinear_arith)
                    requires
                        pow10((width + 1 - kept) as nat) == 10 * pow10((width - kept) as nat),
                ;
            }
            scaled = scaled * 10;
            width += 1;
        }
        assert(scaled == fraction_micros(f)) by {
            assert(f.len() == n - start);
            if f.len() >= 6 {
                assert(kept == 6);
                assert(scaled == fraction) by (nonlinear_arith)
                    requires
                        scaled == fraction * pow10(0),
                        pow10(0) == 1,
                ;
            } else {
                assert(kept == f.len());
                assert(f.take(kept as int) =~= f);
            }
        }
        assert(is_decimal_text(s));
        assert(decimal_text_micros(s) == digits_value(s.take(i as int)) * SCALE as nat + scaled);
        if whole > (u64::MAX / SCALE) as u128 {
            return None;
        }
        let micros: u128 = whole * SCALE as u128 + scaled;
        if micros > u64::MAX as u128 {
            None
        } else {
            Some(Decimal { micros: micros as u64 })
        }
    }
}

/// The digit that writes a number below ten.
pub open spec fn digit_char(d: nat) -> char {
    if d == 0 {
        '0'
    } else if d == 1 {
        '1'
    } else if d == 2 {
        '2'
    } else if d == 3 {
        '3'
    } else if d == 4 {
        '4'
    } else if d == 5 {
        '5'
    } else if d == 6 {
        '6'
    } else if d == 7 {
        '7'
    } else if d == 8 {
        '8'
    } else {
        '9'
    }
}

/// A number in base ten, without leading zeros.
pub open spec fn nat_digits(n: nat) -> Seq<char>
    decreases n,
{
    if n < 10 {
        seq![digit_char(n)]
    } else {
        nat_digits(n / 10).push(digit_char(n % 10))
    }
}

/// The last `width` digits of a number in base ten, with leading zeros.
pub open spec fn fixed_digits(n: nat, width: nat) -> Seq<char>
    decreases width,
{
    if width == 0 {
        Seq::empty()
    } else {
        fixed_digits(n / 10, (width - 1) as nat).push(digit_char(n % 10))
    }
}

fn char_of_digit(d: u64) -> (c: char)
    requires
        d < 10,
    ensures
        c == digit_char(d as nat),
{
    if d == 0 {
        '0'
    } else if d == 1 {
        '1'
    } else if d == 2 {
        '2'
    } else if d == 3 {
        '3'
    } else if d == 4 {
        '4'
    } else if d == 5 {
        '5'
    } else if d == 6 {
        '6'
    } else if d == 7 {
        '7'
    } else if d == 8 {
        '8'
    } else {
        '9'
    }
}

fn push_digits(buf: &mut String, n: u64)
    ensures
        final(buf)@ == old(buf)@ + nat_digits(n as nat),
    decreases n,
{
    if n >= 10 {
        push_digits(buf, n / 10);
    }
    buf.push(char_of_digit(n % 10));
}

fn push_fixed(buf: &mut String, n: u64, width: usize)
    ensures
        final(buf)@ == old(buf)@ + fixed_digits(n as nat, width as nat),
    decreases width,
{
    if width > 0 {
        push_fixed(buf, n / 10, width - 1);
        buf.push(char_of_digit(n % 10));
    }
}

fn pow10_of(n: usize) -> (p: u64)
    requires
        n <= 6,
    ensures
        p == pow10(n as nat),
        1 <= p <= 1_000_000,
{
    proof {
        reveal_with_fuel(pow10, 8);
    }
    if n == 0 {
        1
    } else if n == 1 {
        10
    } else if n == 2 {
        100
    } else if n == 3 {
        1_000
    } else if n == 4 {
        10_000
    } else if n == 5 {
        100_000
    } else {
        1_000_000
    }
}

impl Decimal {
    /// The magnitude counted in units of ten to the minus `places`, rounded to the
    /// nearest count; a magnitude half way between two counts goes to the even one.
    pub open spec fn rounded(self, places: nat) -> nat {
        let unit = pow10((6 - places) as nat);
        let count = self.micros as nat / unit;
        let rest = self.micros as nat % unit;
        if 2 * rest > unit || (2 * rest == unit && count % 2 == 1) {
            count + 1
        } else {
            count
        }
    }

    /// The magnitude written with `places` digits after the point.
    pub open spec fn text(self, places: nat) -> Seq<char> {
        let count = self.rounded(places);
        nat_digits(count / pow10(places)) + seq!['.'] + fixed_digits(count % pow10(places), places)
    }

    /// Appends the magnitude to `buf`, written with `places` digits after the point.
    pub fn write_to(self, buf: &mut String, places: usize)
        requires
            1 <= places <= 6,
        ensures
            final(buf)@ == old(buf)@ + self.text(places as nat),
    {
        let unit: u64 = pow10_of(6 - places);
        let per_whole: u64 = pow10_of(places);
        let mut count: u64 = self.micros / unit;
        let rest: u64 = self.micros % unit;
        if 2 * rest > unit || (2 * rest == unit && count % 2 == 1) {
            assert(count < u64::MAX) by (nonlinear_arith)
                requires
                    count == self.micros / unit,
                    self.micros <= u64::MAX,
                    unit >= 2,
            ;
            count = count + 1;
        }
        let ghost before = buf@;
        push_digits(buf, count / per_whole);
        buf.push('.');
        push_fixed(buf, count % per_whole, places);
        proof {
            let whole_part = nat_digits((count / per_whole) as nat);
            let fraction_part = fixed_digits((count % per_whole) as nat, places as nat);
            assert(buf@ =~= before + (whole_part + seq!['.'] + fraction_part));
        }
    }
}

proof fn lemma_digit_char(d: nat)
    requires
        d < 10,
    ensures
        is_digit(digit_char(d)),
        digit_value(digit_char(d)) == d,
{
}

proof fn lemma_nat_digits(n: nat)
    ensures
        nat_digits(n).len() >= 1,
        all_digits(nat_digits(n)),
        digits_value(nat_digits(n)) == n,
    decreases n,
{
    lemma_digit_char(n % 10);
    if n < 10 {
        let s = nat_digits(n);
        assert(s.drop_last() =~= Seq::<char>::empty());
        assert(digits_value(s.drop_last()) == 0);
    } else {
        lemma_nat_digits(n / 10);
        let s = nat_digits(n);
        assert(s.drop_last() =~= nat_digits(n / 10));
    }
}

proof fn lemma_fixed_digits(n: nat, width: nat)
    ensures
        fixed_digits(n, width).len() == width,
        all_digits(fixed_digits(n, width)),
        digits_value(fixed_digits(n, width)) == n % pow10(width),
    decreases width,
{
    if width > 0 {
        lemma_digit_char(n % 10);
        lemma_fixed_digits(n / 10, (width - 1) as nat);
        let s = fixed_digits(n, width);
        assert(s.drop_last() =~= fixed_digits(n / 10, (width - 1) as nat));
        let p = pow10((width - 1) as nat);
        lemma_pow10_positive((width - 1) as nat);
        vstd::arithmetic::div_mod::lemma_breakdown(n as int, 10, p as int);
    }
}

proof fn lemma_pow10_positive(n: nat)
    ensures
        pow10(n) > 0,
    decreases n,
{
    if n > 0 {
        lemma_pow10_positive((n - 1) as nat);
    }
}

proof fn lemma_pow10_split(places: nat)
    requires
        places <= 6,
    ensures
        pow10(places) * pow10((6 - places) as nat) == 1_000_000,
        places == 6 ==> pow10((6 - places) as nat) == 1,
{
    reveal_with_fuel(pow10, 8);
    assert(pow10(0) == 1);
    assert(pow10(1) == 10);
    assert(pow10(2) == 100);
    assert(pow10(3) == 1_000);
    assert(pow10(4) == 10_000);
    assert(pow10(5) == 100_000);
    assert(pow10(6) == 1_000_000);
    if places == 0 {
        assert(pow10(places) == 1 && pow10((6 - places) as nat) == 1_000_000);
    } else if places == 1 {
        assert(pow10(places) == 10 && pow10((6 - places) as nat) == 100_000);
    } else if places == 2 {
        assert(pow10(places) == 100 && pow10((6 - places) as nat) == 10_000);
    } else if places == 3 {
        assert(pow10(places) == 1_000 && pow10((6 - places) as nat) == 1_000);
    } else if places == 4 {
        assert(pow10(places) == 10_000 && pow10((6 - places) as nat) == 100);
    } else if places == 5 {
        assert(pow10(places) == 100_000 && pow10((6 - places) as nat) == 10);
    } else {
        assert(pow10(places) == 1_000_000 && pow10((6 - places) as nat) == 1);
    }
}

/// A magnitude that is written and read again is the magnitude rounded to the
/// places that were written.
pub proof fn lemma_text_parses_back(d: Decimal, places: nat)
    requires
        1 <= places <= 6,
        d.rounded(places) * pow10((6 - places) as nat) <= u64::MAX,
    ensures
        is_decimal_text(d.text(places)),
        is_digit(d.text(places)[0]),
        parsed_decimal(d.text(places)) == Some(
            Decimal { micros: (d.rounded(places) * pow10((6 - places) as nat)) as u64 },
        ),
{
    reveal_with_fuel(pow10, 8);
    let count = d.rounded(places);
    let per_whole = pow10(places);
    let whole = count / per_whole;
    let part = count % per_whole;
    let a = nat_digits(whole);
    let b = fixed_digits(part, places);
    let s = d.text(places);
    lemma_nat_digits(whole);
    lemma_fixed_digits(part, places);
    let k = a.len() as int;
    assert(s =~= a + seq!['.'] + b);
    assert(s.take(k) =~= a);
    assert(s.skip(k + 1) =~= b);
    assert(s[k] == '.');
    assert(s[0] == a[0]);
    assert(splits_at(s, k));
    assert(!all_digits(s)) by {
        assert(!is_digit(s[k]));
    }
    let chosen = choose|c: int| splits_at(s, c);
    lemma_split_unique(s, chosen, k);
    assert(part % per_whole == part) by (nonlinear_arith)
        requires
            part == count % per_whole,
            per_whole > 0,
    ;
    let rest = pow10((6 - places) as nat);
    lemma_pow10_split(places);
    if places == 6 {
        assert(b.take(6) =~= b);
        assert(rest == 1);
        assert(part * rest == part) by (nonlinear_arith)
            requires
                rest == 1,
        ;
    } else {
        assert(b.len() < 6);
        assert(pow10((6 - b.len()) as nat) == rest);
        assert(digits_value(b) == part);
    }
    assert(fraction_micros(b) == part * rest);
    assert(count == whole * per_whole + part) by (nonlinear_arith)
        requires
            whole == count / per_whole,
            part == count % per_whole,
            per_whole > 0,
    ;
    assert(whole * 1_000_000 + part * pow10((6 - places) as nat) == count * pow10(
        (6 - places) as nat,
    )) by (nonlinear_arith)
        requires
            count == whole * per_whole + part,
            per_whole * pow10((6 - places) as nat) == 1_000_000,
    ;
}

/// Writing a magnitude with all the places that it keeps loses nothing.
pub proof fn lemma_full_text_parses_back(d: Decimal)
    ensures
        parsed_decimal(d.text(6)) == Some(d),
{
    reveal_with_fuel(pow10, 8);
    assert(d.rounded(6) == d.micros);
    lemma_text_parses_back(d, 6);
}

/// A product grows with its factors.
pub proof fn lemma_product_is_monotone(a: Decimal, b: Decimal, c: Decimal, d: Decimal)
    requires
        a.micros <= c.micros,
        b.micros <= d.micros,
    ensures
        a.product(b).micros <= c.product(d).micros,
{
    assert(a.micros * b.micros <= c.micros * d.micros) by (nonlinear_arith)
        requires
            0 <= a.micros <= c.micros,
            0 <= b.micros <= d.micros,
    ;
    vstd::arithmetic::div_mod::lemma_div_is_ordered(
        a.micros * b.micros,
        c.micros * d.micros,
        SCALE as int,
    );
}

/// A quotient grows with what is divided.
pub proof fn lemma_quotient_is_monotone(a: Decimal, c: Decimal, divisor: Decimal)
    requires
        a.micros <= c.micros,
    ensures
        a.quotient(divisor).micros <= c.quotient(divisor).micros,
{
    if divisor.micros != 0 {
        assert(a.micros * SCALE <= c.micros * SCALE);
        vstd::arithmetic::div_mod::lemma_div_is_ordered(
            a.micros * SCALE,
            c.micros * SCALE,
            divisor.micros as int,
        );
    }
}

/// To multiply by one changes nothing.
pub proof fn lemma_product_with_one(a: Decimal)
    ensures
        a.product(Decimal::one()) == a,
        Decimal::one().product(a) == a,
{
    assert(a.micros * 1_000_000 / 1_000_000 == a.micros);
    assert(1_000_000 * a.micros / 1_000_000 == a.micros);
}

} // verus!
