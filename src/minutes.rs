//! Durations in whole minutes.

use crate::error::{describe, AcariError};
use crate::text::{
    lemma_digits_without_leading_zeros, without_leading_zeros,
    contains_char, first_at, lemma_first_at_unique,
    all_digits, chars_of, decimal, digits_value, is_digit, lemma_decimal_digits,
    lemma_padded_digits, padded, parse_unsigned, push_char, push_decimal, push_padded,
    unsigned_digits, unsigned_of, NumberError,
};
use vstd::prelude::*;

verus! {

/// A non-negative number of minutes.
#[derive(Debug, Clone, Copy, PartialEq, Eq, Structural, Hash)]
pub struct Minutes(pub u32);

/// `H:MM`: the whole hours, a colon, and the remaining minutes in two digits.
pub open spec fn minutes_text(m: nat) -> Seq<char> {
    decimal(m / 60).push(':') + padded(m % 60, 2)
}

/// The number of minutes that `s` stands for: either a bare number of
/// minutes, or hours and minutes around the first colon, with fewer than
/// sixty minutes. Hours have no upper bound of their own; the total must fit
/// in 32 bits.
pub open spec fn minutes_of(s: Seq<char>) -> Option<nat> {
    if contains_char(s, ':') {
        let i = choose|i: int| first_at(s, ':', i);
        match (
            unsigned_of(s.subrange(0, i), u32::MAX as nat),
            unsigned_of(s.subrange(i + 1, s.len() as int), u32::MAX as nat),
        ) {
            (Ok(h), Ok(m)) => if m < 60 && h * 60 + m <= u32::MAX {
                Some(h * 60 + m)
            } else {
                None
            },
            _ => None,
        }
    } else {
        match unsigned_of(s, u32::MAX as nat) {
            Ok(v) => Some(v),
            Err(_) => None,
        }
    }
}

fn time_format_error(e: NumberError) -> (r: AcariError)
    ensures
        r is UserError,
{
    AcariError::UserError(describe("Invalid time format: ", e))
}

impl Minutes {
    /// Reads minutes written as a bare number (`90`) or as `H:MM` (`1:30`).
    pub fn parse(s: &str) -> (r: Result<Minutes, AcariError>)
        ensures
            match minutes_of(s@) {
                Some(v) => r == Ok::<Minutes, AcariError>(Minutes(v as u32)),
                None => r is Err && r->Err_0 is UserError,
            },
    {
        let cs = chars_of(s);
        let n = cs.len();
        let mut i: usize = 0;
        while i < n
            invariant
                n == cs@.len(),
                cs@ == s@,
                i <= n,
                forall|j: int| 0 <= j < i ==> cs@[j] != ':',
            ensures
                i <= n,
                forall|j: int| 0 <= j < i ==> cs@[j] != ':',
                i < n ==> cs@[i as int] == ':',
            decreases n - i,
        {
            if cs[i] == ':' {
                break;
            }
            i = i + 1;
        }
        if i == n {
            assert(!contains_char(s@, ':'));
            match parse_unsigned(cs.as_slice(), 0, n, u32::MAX as u64) {
                Ok(v) => {
                    assert(cs@.subrange(0, n as int) =~= s@);
                    Ok(Minutes(v as u32))
                },
                Err(e) => {
                    assert(cs@.subrange(0, n as int) =~= s@);
                    Err(time_format_error(e))
                },
            }
        } else {
            assert(first_at(s@, ':', i as int));
            proof {
                let k = choose|k: int| first_at(s@, ':', k);
                lemma_first_at_unique(s@, ':', i as int, k);
            }
            let hours = match parse_unsigned(cs.as_slice(), 0, i, u32::MAX as u64) {
                Ok(h) => h,
                Err(e) => {
                    return Err(time_format_error(e));
                },
            };
            let minutes = match parse_unsigned(cs.as_slice(), i + 1, n, u32::MAX as u64) {
                Ok(m) => m,
                Err(e) => {
                    return Err(time_format_error(e));
                },
            };
            if minutes >= 60 {
                Err(AcariError::UserError(String::from_str("No more than 60 minutes per hour")))
            } else if hours > (u32::MAX as u64 - minutes) / 60 {
                assert(hours * 60 + minutes > u32::MAX) by (nonlinear_arith)
                    requires
                        hours > (u32::MAX as u64 - minutes) / 60,
                        minutes < 60,
                ;
                Err(time_format_error(NumberError::TooLarge))
            } else {
                assert(hours * 60 + minutes <= u32::MAX) by (nonlinear_arith)
                    requires
                        hours <= (u32::MAX as u64 - minutes) / 60,
                        minutes < 60,
                ;
                Ok(Minutes((hours * 60 + minutes) as u32))
            }
        }
    }

    /// The `H:MM` text of these minutes.
    pub fn to_string(&self) -> (r: String)
        ensures
            r@ == minutes_text(self.0 as nat),
    {
        let mut r = String::new();
        push_decimal(&mut r, (self.0 / 60) as u64);
        push_char(&mut r, ':');
        push_padded(&mut r, (self.0 % 60) as u64, 2);
        assert(r@ =~= minutes_text(self.0 as nat));
        r
    }

    /// The sum of two durations, if it fits.
    pub fn checked_add(self, rhs: Minutes) -> (r: Option<Minutes>)
        ensures
            self.0 + rhs.0 <= u32::MAX ==> r == Some(Minutes((self.0 + rhs.0) as u32)),
            self.0 + rhs.0 > u32::MAX ==> r is None,
    {
        if self.0 <= u32::MAX - rhs.0 {
            Some(Minutes(self.0 + rhs.0))
        } else {
            None
        }
    }

    /// The sum of all durations, if it fits.
    pub fn sum(items: &[Minutes]) -> (r: Option<Minutes>)
        ensures
            total_minutes(items@) <= u32::MAX ==> r == Some(Minutes(total_minutes(items@) as u32)),
            total_minutes(items@) > u32::MAX ==> r is None,
    {
        let mut acc: u32 = 0;
        let mut i: usize = 0;
        while i < items.len()
            invariant
                i <= items@.len(),
                acc == total_minutes(items@.subrange(0, i as int)),
            decreases items@.len() - i,
        {
            assert(items@.subrange(0, i + 1).drop_last() =~= items@.subrange(0, i as int));
            if acc > u32::MAX - items[i].0 {
                proof {
                    lemma_total_prefix_le(items@, i + 1);
                }
                return None;
            }
            acc = acc + items[i].0;
            i = i + 1;
        }
        assert(items@.subrange(0, i as int) =~= items@);
        Some(Minutes(acc))
    }
}

/// Sum of a sequence of durations, as a plain number.
pub open spec fn total_minutes(items: Seq<Minutes>) -> nat
    decreases items.len(),
{
    if items.len() == 0 {
        0
    } else {
        total_minutes(items.drop_last()) + items.last().0 as nat
    }
}

proof fn lemma_total_prefix_le(items: Seq<Minutes>, k: int)
    requires
        0 <= k <= items.len(),
    ensures
        total_minutes(items.subrange(0, k)) <= total_minutes(items),
    decreases items.len() - k,
{
    if k < items.len() {
        lemma_total_prefix_le(items, k + 1);
        assert(items.subrange(0, k + 1).drop_last() =~= items.subrange(0, k));
    } else {
        assert(items.subrange(0, k) =~= items);
    }
}

impl Default for Minutes {
    fn default() -> (r: Minutes)
        ensures
            r == Minutes(0),
    {
        Minutes(0)
    }
}

impl core::str::FromStr for Minutes {
    type Err = AcariError;

    fn from_str(s: &str) -> Result<Minutes, AcariError> {
        Minutes::parse(s)
    }
}

proof fn lemma_digits_have_no_colon(s: Seq<char>)
    requires
        all_digits(s),
    ensures
        !contains_char(s, ':'),
{
    assert forall|i: int| 0 <= i < s.len() implies s[i] != ':' by {
        assert(is_digit(s[i]));
    }
}

proof fn lemma_digits_are_unsigned(s: Seq<char>)
    requires
        all_digits(s),
        s.len() > 0,
        digits_value(s) <= u32::MAX,
    ensures
        unsigned_of(s, u32::MAX as nat) == Ok::<nat, NumberError>(digits_value(s)),
{
    assert(is_digit(s[0]));
    assert(unsigned_digits(s) == s);
}

/// Writing hours and two-digit minutes below sixty as `H:MM`, then reading
/// and printing them, gives back the same text.
pub proof fn lemma_hours_minutes_round_trip(h: nat, m: nat)
    requires
        m < 60,
        h * 60 + m <= u32::MAX,
    ensures
        minutes_of(decimal(h).push(':') + padded(m, 2)) == Some(h * 60 + m),
        minutes_text(h * 60 + m) == decimal(h).push(':') + padded(m, 2),
{
    let dh = decimal(h);
    let pm = padded(m, 2);
    let s = dh.push(':') + pm;
    lemma_decimal_digits(h);
    lemma_padded_digits(m, 2);
    let i = dh.len() as int;
    assert(s[i] == ':');
    assert forall|j: int| 0 <= j < i implies s[j] != ':' by {
        assert(s[j] == dh[j]);
        assert(is_digit(dh[j]));
    }
    assert(first_at(s, ':', i));
    assert(contains_char(s, ':'));
    let k = choose|k: int| first_at(s, ':', k);
    lemma_first_at_unique(s, ':', i, k);
    assert(s.subrange(0, i) =~= dh);
    assert(s.subrange(i + 1, s.len() as int) =~= pm);
    assert(h <= u32::MAX) by (nonlinear_arith)
        requires
            h * 60 + m <= u32::MAX,
    ;
    lemma_digits_are_unsigned(dh);
    lemma_digits_are_unsigned(pm);
    assert((h * 60 + m) / 60 == h && (h * 60 + m) % 60 == m) by (nonlinear_arith)
        requires
            m < 60,
    ;
}

/// A bare number of minutes keeps its value when read: its decimal text is
/// the input without leading zeros, and reading what is printed for it gives
/// the same minutes again.
pub proof fn lemma_bare_minutes_value_kept(s: Seq<char>)
    requires
        s.len() > 0,
        all_digits(s),
        digits_value(s) <= u32::MAX,
    ensures
        minutes_of(s) == Some(digits_value(s)),
        decimal(digits_value(s)) == without_leading_zeros(s),
        minutes_of(minutes_text(digits_value(s))) == Some(digits_value(s)),
{
    lemma_digits_without_leading_zeros(s);
    lemma_digits_have_no_colon(s);
    lemma_digits_are_unsigned(s);
    let v = digits_value(s);
    assert(v == (v / 60) * 60 + v % 60 && v % 60 < 60) by (nonlinear_arith);
    lemma_hours_minutes_round_trip(v / 60, v % 60);
}

} // verus!
