//! Non-negative fixed-point quantities in thousandths, and a verified parser
//! for the decimal text that entry forms hand in (digits, optionally followed
//! by a dot and one to three fraction digits).

use vstd::prelude::*;
use crate::DomainError;

verus! {

/// A non-negative decimal quantity held in thousandths, e.g. `1.5` as `1500`.
///
/// Velocities, capacities and story points are quantities of this kind; three
/// fraction digits are enough for the multipliers a planning form asks for.
#[derive(Clone, Copy, Debug, PartialEq, Eq, Structural)]
pub struct Fixed {
    pub thousandths: u64,
}

impl View for Fixed {
    type V = int;

    open spec fn view(&self) -> int {
        self.thousandths as int
    }
}

impl Fixed {
    /// The zero quantity.
    pub fn zero() -> (r: Fixed)
        ensures
            r@ == 0,
    {
        Fixed { thousandths: 0 }
    }

    /// The quantity holding exactly `t` thousandths.
    pub fn from_thousandths(t: u64) -> (r: Fixed)
        ensures
            r@ == t,
    {
        Fixed { thousandths: t }
    }

    /// The sum of two quantities, saturating at the largest representable
    /// one.
    pub fn saturating_add(self, other: Fixed) -> (r: Fixed)
        ensures
            r@ == sat_add(self@, other@),
    {
        match self.thousandths.checked_add(other.thousandths) {
            Some(t) => Fixed { thousandths: t },
            None => Fixed { thousandths: u64::MAX },
        }
    }
}

/// Addition capped at the largest representable quantity.
pub open spec fn sat_add(a: int, b: int) -> int {
    if a + b > u64::MAX {
        u64::MAX as int
    } else {
        a + b
    }
}

/// `c` is one of the characters `0` through `9`.
pub open spec fn is_decimal_digit(c: char) -> bool {
    48 <= c as int && c as int <= 57
}

/// The numeric value of a digit character.
pub open spec fn digit_value(c: char) -> int {
    c as int - 48
}

/// Every character of `s` is a decimal digit.
pub open spec fn all_decimal_digits(s: Seq<char>) -> bool {
    forall|i: int| 0 <= i < s.len() ==> is_decimal_digit(#[trigger] s[i])
}

/// The value of a run of digit characters read in base ten.
pub open spec fn digits_value(s: Seq<char>) -> int
    decreases s.len(),
{
    if s.len() <= 0 {
        0
    } else {
        digits_value(s.drop_last()) * 10 + digit_value(s.last())
    }
}

/// The text splits at `p` into a non-empty run of integer digits and, unless
/// `p` is the end, a dot followed by one to three fraction digits.
pub open spec fn decimal_split_at(s: Seq<char>, p: int) -> bool {
    &&& 1 <= p <= s.len()
    &&& all_decimal_digits(s.subrange(0, p))
    &&& (p == s.len() || (s[p] == '.' && p + 2 <= s.len() && s.len() <= p + 4
        && all_decimal_digits(s.subrange(p + 1, s.len() as int))))
}

/// The text is shaped like a decimal quantity.
pub open spec fn decimal_shape(s: Seq<char>) -> bool {
    exists|p: int| decimal_split_at(s, p)
}

/// What one fraction digit is worth, in thousandths, by how many there are.
pub open spec fn fraction_scale(n: int) -> int {
    if n <= 1 {
        100
    } else if n == 2 {
        10
    } else {
        1
    }
}

/// The value in thousandths of a text shaped like a decimal quantity.
pub open spec fn decimal_value(s: Seq<char>) -> int {
    let p = choose|p: int| decimal_split_at(s, p);
    if p == s.len() {
        digits_value(s) * 1000
    } else {
        digits_value(s.subrange(0, p)) * 1000 + digits_value(
            s.subrange(p + 1, s.len() as int),
        ) * fraction_scale(s.len() - p - 1)
    }
}

/// The text is a decimal quantity whose value in thousandths fits in a `u64`.
pub open spec fn valid_decimal(s: Seq<char>) -> bool {
    decimal_shape(s) && decimal_value(s) <= u64::MAX
}

/// A text splits as a decimal quantity at no more than one position.
proof fn lemma_split_unique(s: Seq<char>, p1: int, p2: int)
    requires
        decimal_split_at(s, p1),
        decimal_split_at(s, p2),
    ensures
        p1 == p2,
{
    if p1 < p2 {
        assert(s.subrange(0, p2)[p1] == s[p1]);
        assert(is_decimal_digit(s[p1]));
        assert(s[p1] == '.');
    }
    if p2 < p1 {
        assert(s.subrange(0, p1)[p2] == s[p2]);
        assert(is_decimal_digit(s[p2]));
        assert(s[p2] == '.');
    }
}

/// Pins the value of a decimal text down from any one split position: a
/// text splits at no more than one, so naming it fixes the value.
pub proof fn lemma_decimal_value_at(s: Seq<char>, p: int)
    requires
        decimal_split_at(s, p),
    ensures
        decimal_shape(s),
        p == s.len() ==> decimal_value(s) == digits_value(s) * 1000,
        p < s.len() ==> decimal_value(s) == digits_value(s.subrange(0, p)) * 1000 + digits_value(
            s.subrange(p + 1, s.len() as int),
        ) * fraction_scale(s.len() - p - 1),
{
    let q = choose|q: int| decimal_split_at(s, q);
    lemma_split_unique(s, q, p);
}

/// The value of a digit run is never negative.
proof fn lemma_digits_value_nonneg(s: Seq<char>)
    requires
        all_decimal_digits(s),
    ensures
        digits_value(s) >= 0,
    decreases s.len(),
{
    if s.len() > 0 {
        assert(forall|i: int|
            0 <= i < s.drop_last().len() ==> is_decimal_digit(#[trigger] s.drop_last()[i]));
        lemma_digits_value_nonneg(s.drop_last());
    }
}

/// The value of a digit run of length `n` is below ten to the `n`.
proof fn lemma_digits_value_bound(s: Seq<char>)
    requires
        all_decimal_digits(s),
    ensures
        s.len() == 0 ==> digits_value(s) == 0,
        s.len() == 1 ==> digits_value(s) <= 9,
        s.len() == 2 ==> digits_value(s) <= 99,
        s.len() == 3 ==> digits_value(s) <= 999,
    decreases s.len(),
{
    if s.len() > 0 {
        assert(forall|i: int|
            0 <= i < s.drop_last().len() ==> is_decimal_digit(#[trigger] s.drop_last()[i]));
        lemma_digits_value_bound(s.drop_last());
    }
}

/// Reading one more digit multiplies the run's value by ten and adds it.
proof fn lemma_digits_value_snoc(s: Seq<char>, a: int, j: int)
    requires
        0 <= a <= j < s.len(),
    ensures
        digits_value(s.subrange(a, j + 1)) == digits_value(s.subrange(a, j)) * 10 + digit_value(
            s[j],
        ),
{
    assert(s.subrange(a, j + 1).drop_last() =~= s.subrange(a, j));
    assert(s.subrange(a, j + 1).last() == s[j]);
}

/// A digit run is worth at least as much as any of its prefixes.
proof fn lemma_digits_value_prefix_le(s: Seq<char>, a: int, m: int, b: int)
    requires
        0 <= a <= m <= b <= s.len(),
        all_decimal_digits(s.subrange(a, b)),
    ensures
        digits_value(s.subrange(a, m)) <= digits_value(s.subrange(a, b)),
    decreases b - m,
{
    if m < b {
        assert(s.subrange(a, b)[m - a] == s[m]);
        assert(is_decimal_digit(s[m]));
        assert(forall|i: int|
            0 <= i < m - a ==> s.subrange(a, m)[i] == #[trigger] s.subrange(a, b)[i]);
        lemma_digits_value_nonneg(s.subrange(a, m));
        lemma_digits_value_snoc(s, a, m);
        lemma_digits_value_prefix_le(s, a, m + 1, b);
    }
}

/// Index of the first character at or after `from` that is not a decimal
/// digit, or the end of the text.
fn scan_digits(s: &str, n: usize, from: usize) -> (r: usize)
    requires
        n == s@.len(),
        from <= n,
    ensures
        from <= r <= n,
        all_decimal_digits(s@.subrange(from as int, r as int)),
        r < n ==> !is_decimal_digit(s@[r as int]),
{
    let mut i: usize = from;
    while i < n
        invariant
            from <= i <= n,
            n == s@.len(),
            all_decimal_digits(s@.subrange(from as int, i as int)),
        decreases n - i,
    {
        let c = s.get_char(i);
        let u = c as u32;
        if u < 48 || u > 57 {
            return i;
        }
        proof {
            assert(s@.subrange(from as int, i as int + 1) =~= s@.subrange(
                from as int,
                i as int,
            ).push(s@[i as int]));
        }
        i = i + 1;
    }
    i
}

/// The value of the digit run `s[from..to]`, or `None` where it exceeds
/// `u64::MAX`.
fn digits_to_value(s: &str, n: usize, from: usize, to: usize) -> (r: Option<u64>)
    requires
        n == s@.len(),
        from <= to <= n,
        all_decimal_digits(s@.subrange(from as int, to as int)),
    ensures
        match r {
            Some(v) => v == digits_value(s@.subrange(from as int, to as int)),
            None => digits_value(s@.subrange(from as int, to as int)) > u64::MAX,
        },
{
    let mut i: usize = from;
    let mut acc: u64 = 0;
    while i < to
        invariant
            from <= i <= to <= n,
            n == s@.len(),
            all_decimal_digits(s@.subrange(from as int, to as int)),
            acc == digits_value(s@.subrange(from as int, i as int)),
        decreases to - i,
    {
        proof {
            assert(s@.subrange(from as int, to as int)[i - from] == s@[i as int]);
            assert(is_decimal_digit(s@[i as int]));
        }
        let c = s.get_char(i);
        let u = c as u32;
        let d: u64 = (u - 48) as u64;
        let next: Option<u64> = match acc.checked_mul(10) {
            Some(t) => t.checked_add(d),
            None => None,
        };
        proof {
            lemma_digits_value_snoc(s@, from as int, i as int);
        }
        match next {
            Some(v) => {
                acc = v;
            },
            None => {
                proof {
                    lemma_digits_value_prefix_le(s@, from as int, i as int + 1, to as int);
                }
                return None;
            },
        }
        i = i + 1;
    }
    Some(acc)
}

/// Parses decimal text into a [`Fixed`] quantity.
///
/// The text must be one or more digits, optionally followed by a dot and one
/// to three fraction digits, and its value in thousandths must fit in a
/// `u64`; any other text is a validation error.
pub fn parse_fixed(s: &str) -> (r: Result<Fixed, DomainError>)
    ensures
        match r {
            Ok(f) => valid_decimal(s@) && f@ == decimal_value(s@),
            Err(e) => e == DomainError::ValidationError && !valid_decimal(s@),
        },
{
    let n = s.unicode_len();
    let int_end = scan_digits(s, n, 0);
    if int_end == 0 {
        proof {
            assert forall|p: int| !decimal_split_at(s@, p) by {
                if 1 <= p <= s@.len() {
                    assert(s@.subrange(0, p)[0] == s@[0]);
                }
            }
        }
        return Err(DomainError::ValidationError);
    }
    if int_end == n {
        proof {
            assert(s@.subrange(0, n as int) =~= s@);
            assert(decimal_split_at(s@, n as int));
            lemma_decimal_value_at(s@, n as int);
        }
        match digits_to_value(s, n, 0, n) {
            Some(v) => {
                match v.checked_mul(1000) {
                    Some(t) => Ok(Fixed { thousandths: t }),
                    None => {
                        proof {
                            lemma_digits_value_nonneg(s@);
                        }
                        Err(DomainError::ValidationError)
                    },
                }
            },
            None => {
                proof {
                    lemma_digits_value_nonneg(s@);
                }
                Err(DomainError::ValidationError)
            },
        }
    } else {
        let c = s.get_char(int_end);
        if c as u32 != 46 {
            proof {
                assert(s@[int_end as int] != '.');
                assert forall|p: int| !decimal_split_at(s@, p) by {
                    if 1 <= p <= s@.len() {
                        if p <= int_end as int {
                            if p < s@.len() {
                                if p < int_end as int {
                                    assert(s@.subrange(0, int_end as int)[p] == s@[p]);
                                    assert(is_decimal_digit(s@[p]));
                                }
                            }
                        } else {
                            assert(s@.subrange(0, p)[int_end as int] == s@[int_end as int]);
                        }
                    }
                }
            }
            return Err(DomainError::ValidationError);
        }
        proof {
            assert(s@[int_end as int] == '.');
            assert forall|p: int| decimal_split_at(s@, p) implies p == int_end as int by {
                if p < int_end as int {
                    assert(s@.subrange(0, int_end as int)[p] == s@[p]);
                    assert(is_decimal_digit(s@[p]));
                } else if p > int_end as int {
                    assert(s@.subrange(0, p)[int_end as int] == s@[int_end as int]);
                }
            }
        }
        let frac_len = n - int_end - 1;
        if frac_len < 1 || frac_len > 3 {
            return Err(DomainError::ValidationError);
        }
        let frac_end = scan_digits(s, n, int_end + 1);
        if frac_end < n {
            proof {
                assert(s@.subrange(int_end as int + 1, n as int)[frac_end - int_end - 1] == s@[
                    frac_end as int]);
            }
            return Err(DomainError::ValidationError);
        }
        proof {
            assert(decimal_split_at(s@, int_end as int));
            lemma_decimal_value_at(s@, int_end as int);
        }
        let fv = match digits_to_value(s, n, int_end + 1, n) {
            Some(f) => f,
            None => {
                proof {
                    lemma_digits_value_bound(s@.subrange(int_end as int + 1, n as int));
                }
                return Err(DomainError::ValidationError);
            },
        };
        proof {
            lemma_digits_value_bound(s@.subrange(int_end as int + 1, n as int));
        }
        let scale: u64 = if frac_len == 1 {
            100
        } else if frac_len == 2 {
            10
        } else {
            1
        };
        let fs: u64 = fv * scale;
        match digits_to_value(s, n, 0, int_end) {
            Some(a) => {
                match a.checked_mul(1000) {
                    Some(t) => {
                        match t.checked_add(fs) {
                            Some(v) => Ok(Fixed { thousandths: v }),
                            None => Err(DomainError::ValidationError),
                        }
                    },
                    None => {
                        proof {
                            lemma_digits_value_nonneg(s@.subrange(int_end as int + 1, n as int));
                        }
                        Err(DomainError::ValidationError)
                    },
                }
            },
            None => {
                proof {
                    lemma_digits_value_nonneg(s@.subrange(int_end as int + 1, n as int));
                    lemma_digits_value_nonneg(s@.subrange(0, int_end as int));
                }
                Err(DomainError::ValidationError)
            },
        }
    }
}

} // verus!
