//! Numbers of the language, held exactly as decimals: `mantissa / 10^scale`.
use vstd::prelude::*;

verus! {

/// A decimal number: the value is `mantissa * 10^(-scale)`.
#[derive(Clone, Copy, Debug, PartialEq, Eq, Structural)]
pub struct Number {
    pub mantissa: i64,
    pub scale: u32,
}

pub open spec fn pow10(k: nat) -> int
    decreases k,
{
    if k == 0 {
        1
    } else {
        10 * pow10((k - 1) as nat)
    }
}

pub open spec fn in_i64(x: int) -> bool {
    i64::MIN <= x <= i64::MAX
}

/// `m * 10^k` can be computed in 64 bits, `10^k` included.
pub open spec fn scaled_fits(m: int, k: nat) -> bool {
    pow10(k) <= i64::MAX && in_i64(m * pow10(k))
}

pub open spec fn common_scale(a: Number, b: Number) -> nat {
    if a.scale >= b.scale {
        a.scale as nat
    } else {
        b.scale as nat
    }
}

/// The mantissa of `a + b` written at the larger of the two scales.
pub open spec fn sum_mantissa(a: Number, b: Number) -> int {
    let s = common_scale(a, b);
    a.mantissa * pow10((s - a.scale) as nat) + b.mantissa * pow10((s - b.scale) as nat)
}

/// `a + b` can be computed in 64 bits.
pub open spec fn sum_fits(a: Number, b: Number) -> bool {
    let s = common_scale(a, b);
    &&& scaled_fits(a.mantissa as int, (s - a.scale) as nat)
    &&& scaled_fits(b.mantissa as int, (s - b.scale) as nat)
    &&& in_i64(sum_mantissa(a, b))
}

/// `a * b` can be computed in 64 bits.
pub open spec fn product_fits(a: Number, b: Number) -> bool {
    &&& in_i64(a.mantissa * b.mantissa)
    &&& a.scale + b.scale <= u32::MAX
}

/// The exact sum, when it fits.
pub open spec fn sum(a: Number, b: Number) -> Option<Number> {
    if sum_fits(a, b) {
        Some(Number { mantissa: sum_mantissa(a, b) as i64, scale: common_scale(a, b) as u32 })
    } else {
        None
    }
}

/// The exact product, when it fits.
pub open spec fn product(a: Number, b: Number) -> Option<Number> {
    if product_fits(a, b) {
        Some(Number { mantissa: (a.mantissa * b.mantissa) as i64, scale: (a.scale + b.scale) as u32 })
    } else {
        None
    }
}

pub open spec fn is_digit(c: char) -> bool {
    '0' <= c <= '9'
}

/// The value of a string of decimal digits.
pub open spec fn digits_value(s: Seq<char>) -> int
    decreases s.len(),
{
    if s.len() == 0 {
        0
    } else {
        digits_value(s.drop_last()) * 10 + (s.last() as int - '0' as int)
    }
}

/// Where the decimal point of `s` is; its length when it has none.
pub open spec fn point_at(s: Seq<char>) -> int {
    if exists|i: int| 0 <= i < s.len() && s[i] == '.' {
        choose|i: int| 0 <= i < s.len() && s[i] == '.'
    } else {
        s.len() as int
    }
}

/// Digits, optionally followed by a point and more digits.
pub open spec fn decimal_literal(s: Seq<char>) -> bool {
    let p = point_at(s);
    &&& 0 < p
    &&& p < s.len() ==> p + 1 < s.len()
    &&& forall|i: int| 0 <= i < s.len() && i != p ==> is_digit(#[trigger] s[i])
}

/// The digits of a decimal literal without its point.
pub open spec fn literal_digits(s: Seq<char>) -> Seq<char> {
    let p = point_at(s);
    if p < s.len() {
        s.subrange(0, p) + s.subrange(p + 1, s.len() as int)
    } else {
        s
    }
}

/// The number a decimal literal denotes, when it is one and fits.
pub open spec fn literal_value(s: Seq<char>) -> Option<Number> {
    let p = point_at(s);
    let scale = if p < s.len() { s.len() - p - 1 } else { 0 };
    if decimal_literal(s) && in_i64(digits_value(literal_digits(s))) && scale <= u32::MAX {
        Some(Number { mantissa: digits_value(literal_digits(s)) as i64, scale: scale as u32 })
    } else {
        None
    }
}

proof fn lemma_digits_value_grows(s: Seq<char>, k: int)
    requires
        0 <= k <= s.len(),
        forall|i: int| 0 <= i < s.len() ==> is_digit(#[trigger] s[i]),
    ensures
        0 <= digits_value(s.subrange(0, k)) <= digits_value(s),
    decreases s.len(),
{
    if s.len() > 0 {
        if k < s.len() {
            assert(s.drop_last().subrange(0, k) =~= s.subrange(0, k));
            lemma_digits_value_grows(s.drop_last(), k);
        } else {
            assert(s.subrange(0, k) =~= s);
        }
        lemma_digits_value_grows(s.drop_last(), s.len() - 1);
        assert(s.drop_last().subrange(0, s.len() - 1) =~= s.drop_last());
    }
}

pub proof fn lemma_pow10_positive(k: nat)
    ensures
        pow10(k) >= 1,
    decreases k,
{
    if k > 0 {
        lemma_pow10_positive((k - 1) as nat);
    }
}

pub proof fn lemma_pow10_monotone(i: nat, k: nat)
    requires
        i <= k,
    ensures
        pow10(i) <= pow10(k),
    decreases k - i,
{
    if i < k {
        lemma_pow10_monotone(i, (k - 1) as nat);
        lemma_pow10_positive((k - 1) as nat);
    }
}

/// `10^k`, when it fits in 64 bits.
pub fn power_of_ten(k: u32) -> (r: Option<i64>)
    ensures
        r == (if pow10(k as nat) <= i64::MAX {
            Some(pow10(k as nat) as i64)
        } else {
            None::<i64>
        }),
{
    let mut p: i64 = 1;
    let mut i: u32 = 0;
    while i < k
        invariant
            i <= k,
            p == pow10(i as nat),
        decreases k - i,
    {
        match p.checked_mul(10) {
            Some(q) => {
                p = q;
                i = i + 1;
            },
            None => {
                proof {
                    lemma_pow10_positive(i as nat);
                    assert(pow10((i + 1) as nat) == 10 * pow10(i as nat));
                    lemma_pow10_monotone((i + 1) as nat, k as nat);
                }
                return None;
            },
        }
    }
    Some(p)
}

/// `m * 10^k`, when it and `10^k` fit in 64 bits.
pub fn scale_up(m: i64, k: u32) -> (r: Option<i64>)
    ensures
        r == (if scaled_fits(m as int, k as nat) {
            Some((m * pow10(k as nat)) as i64)
        } else {
            None::<i64>
        }),
{
    proof {
        lemma_pow10_positive(k as nat);
    }
    match power_of_ten(k) {
        Some(p) => m.checked_mul(p),
        None => None,
    }
}

impl Number {
    /// The number that a literal of decimal digits with an optional point denotes;
    /// `None` for other text and for values that do not fit.
    pub fn parse_literal(text: &str) -> (r: Option<Number>)
        ensures
            r == literal_value(text@),
    {
        let n = text.unicode_len();
        let ghost s = text@;
        let mut m: i64 = 0;
        let ghost mut seen: Seq<char> = Seq::empty();
        let mut point: Option<usize> = None;
        let mut i: usize = 0;
        assert(s.subrange(0, 0) =~= seen);
        while i < n
            invariant
                n == s.len(),
                s == text@,
                i <= n,
                point is None ==> forall|j: int| 0 <= j < i ==> s[j] != '.',
                point is Some ==> 0 < point->Some_0 < i && s[point->Some_0 as int] == '.'
                    && forall|j: int| 0 <= j < i && j != point->Some_0 ==> s[j] != '.',
                forall|j: int| 0 <= j < i && (point is None || j != point->Some_0) ==> is_digit(#[trigger] s[j]),
                seen == (if point is Some {
                    s.subrange(0, point->Some_0 as int) + s.subrange(point->Some_0 + 1, i as int)
                } else {
                    s.subrange(0, i as int)
                }),
                forall|j: int| 0 <= j < seen.len() ==> is_digit(#[trigger] seen[j]),
                m == digits_value(seen),
                m >= 0,
            decreases n - i,
        {
            let c = text.get_char(i);
            if c == '.' {
                if point.is_some() || i == 0 {
                    proof {
                        Self::lemma_not_literal_two_points(s, point, i);
                    }
                    return None;
                }
                point = Some(i);
                proof {
                    assert(s.subrange(0, i as int) + s.subrange(i + 1, i + 1) =~= s.subrange(0, i as int));
                }
            } else {
                if c < '0' || c > '9' {
                    proof {
                        Self::lemma_not_literal_bad_char(s, i);
                    }
                    return None;
                }
                let d = (c as u32 - '0' as u32) as i64;
                let ghost next_digits = seen.push(c);
                proof {
                    assert(next_digits.drop_last() =~= seen);
                    if point is Some {
                        let p = point->Some_0 as int;
                        assert(s.subrange(0, p) + s.subrange(p + 1, i + 1) =~= next_digits);
                    } else {
                        assert(s.subrange(0, i + 1) =~= next_digits);
                    }
                }
                let next = match m.checked_mul(10) {
                    Some(t) => t.checked_add(d),
                    None => None,
                };
                match next {
                    Some(v) => {
                        m = v;
                    },
                    None => {
                        proof {
                            Self::lemma_prefix_overflow(s, point, i, next_digits);
                        }
                        return None;
                    },
                }
                proof {
                    if point is Some {
                        let p = point->Some_0 as int;
                        assert(s.subrange(0, p) + s.subrange(p + 1, i + 1) =~= next_digits);
                    } else {
                        assert(s.subrange(0, i + 1) =~= next_digits);
                    }
                    seen = next_digits;
                }
            }
            i = i + 1;
        }
        proof {
            Self::lemma_point_at(s, point);
        }
        match point {
            Some(p) => {
                if p + 1 >= n {
                    return None;
                }
                let scale = n - p - 1;
                if scale > u32::MAX as usize {
                    return None;
                }
                proof {
                    assert(literal_digits(s) =~= seen);
                }
                Some(Number { mantissa: m, scale: scale as u32 })
            },
            None => {
                if n == 0 {
                    return None;
                }
                proof {
                    assert(s.subrange(0, n as int) =~= s);
                }
                Some(Number { mantissa: m, scale: 0 })
            },
        }
    }

    proof fn lemma_point_at(s: Seq<char>, point: Option<usize>)
        requires
            point is None ==> forall|j: int| 0 <= j < s.len() ==> s[j] != '.',
            point is Some ==> point->Some_0 < s.len() && s[point->Some_0 as int] == '.'
                && forall|j: int| 0 <= j < s.len() && j != point->Some_0 ==> s[j] != '.',
        ensures
            point_at(s) == (if point is Some { point->Some_0 as int } else { s.len() as int }),
    {
        if point is Some {
            assert(s[point->Some_0 as int] == '.');
        }
    }

    proof fn lemma_not_literal_two_points(s: Seq<char>, point: Option<usize>, i: usize)
        requires
            i < s.len(),
            s[i as int] == '.',
            point is Some || i == 0,
            point is Some ==> point->Some_0 < i && s[point->Some_0 as int] == '.',
        ensures
            literal_value(s) is None,
    {
        let p = point_at(s);
        assert(exists|k: int| 0 <= k < s.len() && s[k] == '.');
        if decimal_literal(s) {
            if i == 0 {
                assert(!is_digit(s[0]));
            } else {
                let q = point->Some_0 as int;
                assert(!is_digit(s[q]));
                assert(!is_digit(s[i as int]));
            }
        }
    }

    proof fn lemma_not_literal_bad_char(s: Seq<char>, i: usize)
        requires
            i < s.len(),
            s[i as int] != '.',
            !is_digit(s[i as int]),
        ensures
            literal_value(s) is None,
    {
        if decimal_literal(s) {
            let p = point_at(s);
            if p < s.len() {
                assert(s[p] == '.');
            }
            assert(!is_digit(s[i as int]));
        }
    }

    proof fn lemma_prefix_overflow(s: Seq<char>, point: Option<usize>, i: usize, pre: Seq<char>)
        requires
            i < s.len(),
            s[i as int] != '.',
            point is None ==> forall|j: int| 0 <= j < i ==> s[j] != '.',
            point is Some ==> 0 < point->Some_0 < i && s[point->Some_0 as int] == '.',
            pre == (if point is Some {
                s.subrange(0, point->Some_0 as int) + s.subrange(point->Some_0 + 1, i + 1)
            } else {
                s.subrange(0, i + 1)
            }),
            !in_i64(digits_value(pre)),
            digits_value(pre) >= 0,
        ensures
            literal_value(s) is None,
    {
        if decimal_literal(s) {
            let p = point_at(s);
            let ds = literal_digits(s);
            if p < s.len() {
                assert(s[p] == '.');
            }
            if point is Some {
                let q = point->Some_0 as int;
                if q != p {
                    assert(!is_digit(s[q]));
                }
                assert(p == q);
            } else {
                if p <= i {
                    assert(s[p] == '.');
                }
            }
            if point is None {
                assert(p > i);
            }
            assert forall|j: int| 0 <= j < pre.len() implies ds[j] == pre[j] by {
                if point is Some {
                    let q = point->Some_0 as int;
                    if j < q {
                        assert(ds[j] == s[j]);
                    } else {
                        assert(ds[j] == s[j + 1]);
                    }
                } else {
                    assert(ds[j] == s[j]);
                }
            }
            assert(ds.subrange(0, pre.len() as int) =~= pre);
            assert forall|j: int| 0 <= j < ds.len() implies is_digit(#[trigger] ds[j]) by {
                if p < s.len() {
                    if j < p {
                        assert(ds[j] == s[j]);
                    } else {
                        assert(ds[j] == s[j + 1]);
                    }
                } else {
                    assert(ds[j] == s[j]);
                }
            }
            lemma_digits_value_grows(ds, pre.len() as int);
        }
    }

    /// The number written with digits `mantissa` and `scale` of them after the point.
    pub fn new(mantissa: i64, scale: u32) -> (r: Number)
        ensures
            r.mantissa == mantissa,
            r.scale == scale,
    {
        Number { mantissa, scale }
    }

    /// The exact sum, at the larger of the two scales; `None` where it does not fit.
    pub fn checked_add(self, other: Number) -> (r: Option<Number>)
        ensures
            r.is_some() == sum_fits(self, other),
            r.is_some() ==> r.unwrap().scale == common_scale(self, other) && r.unwrap().mantissa
                == sum_mantissa(self, other),
            r == sum(self, other),
    {
        let s: u32 = if self.scale >= other.scale {
            self.scale
        } else {
            other.scale
        };
        let a = match scale_up(self.mantissa, s - self.scale) {
            Some(a) => a,
            None => return None,
        };
        let b = match scale_up(other.mantissa, s - other.scale) {
            Some(b) => b,
            None => return None,
        };
        match a.checked_add(b) {
            Some(m) => Some(Number { mantissa: m, scale: s }),
            None => None,
        }
    }

    /// The exact product; `None` where it does not fit.
    pub fn checked_mul(self, other: Number) -> (r: Option<Number>)
        ensures
            r.is_some() == product_fits(self, other),
            r.is_some() ==> r.unwrap().mantissa == self.mantissa * other.mantissa
                && r.unwrap().scale == self.scale + other.scale,
            r == product(self, other),
    {
        let m = match self.mantissa.checked_mul(other.mantissa) {
            Some(m) => m,
            None => return None,
        };
        match self.scale.checked_add(other.scale) {
            Some(s) => Some(Number { mantissa: m, scale: s }),
            None => None,
        }
    }
}

} // verus!
