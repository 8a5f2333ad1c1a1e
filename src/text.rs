//! Decimal text: the digits of a number, and numbers read back from digits.

use vstd::prelude::*;

verus! {

/// The character of a decimal digit.
pub open spec fn digit_char(d: nat) -> char
    recommends
        d < 10,
{
    if d == 0 {
        '0'
    } else if d == 1 {
        '1'
    } else if d == 2 {
        '2'
    } else if d == 3 {
        '3'
    } else if d == 4 {
        '4'
    } else if d == 5 {
        '5'
    } else if d == 6 {
        '6'
    } else if d == 7 {
        '7'
    } else if d == 8 {
        '8'
    } else {
        '9'
    }
}

pub proof fn lemma_digit_char(d: nat)
    requires
        d < 10,
    ensures
        is_digit(digit_char(d)),
        digit_value(digit_char(d)) == d,
{
}

pub open spec fn is_digit(c: char) -> bool {
    '0' <= c && c <= '9'
}

pub open spec fn digit_value(c: char) -> nat {
    (c as u32 - 48) as nat
}

pub open spec fn all_digits(s: Seq<char>) -> bool {
    forall|i: int| 0 <= i < s.len() ==> is_digit(#[trigger] s[i])
}

/// The number that a run of digits spells, most significant first.
pub open spec fn digits_value(s: Seq<char>) -> nat
    decreases s.len(),
{
    if s.len() == 0 {
        0
    } else {
        digits_value(s.drop_last()) * 10 + digit_value(s.last())
    }
}

/// Shortest decimal text of `n`.
pub open spec fn decimal(n: nat) -> Seq<char>
    decreases n,
{
    if n < 10 {
        seq![digit_char(n)]
    } else {
        decimal(n / 10).push(digit_char(n % 10))
    }
}

/// Decimal text of `n`, with zeros in front up to `width` characters.
pub open spec fn padded(n: nat, width: nat) -> Seq<char> {
    let d = decimal(n);
    if d.len() >= width {
        d
    } else {
        Seq::new((width - d.len()) as nat, |i: int| '0') + d
    }
}

/// Whether `i` is the first position of `c` in `s`.
pub open spec fn first_at(s: Seq<char>, c: char, i: int) -> bool {
    &&& 0 <= i < s.len()
    &&& s[i] == c
    &&& forall|j: int| 0 <= j < i ==> s[j] != c
}

pub open spec fn contains_char(s: Seq<char>, c: char) -> bool {
    exists|i: int| 0 <= i < s.len() && s[i] == c
}

pub proof fn lemma_first_at_unique(s: Seq<char>, c: char, i: int, k: int)
    requires
        first_at(s, c, i),
        first_at(s, c, k),
    ensures
        i == k,
{
}

/// Why a text is not an unsigned number.
#[derive(Debug, Clone, Copy, PartialEq, Eq, Structural)]
pub enum NumberError {
    Empty,
    InvalidDigit,
    TooLarge,
}

/// The digits of an unsigned number's text: a leading `+` is allowed.
pub open spec fn unsigned_digits(s: Seq<char>) -> Seq<char> {
    if s.len() > 0 && s[0] == '+' {
        s.drop_first()
    } else {
        s
    }
}

/// Reading `s` as an unsigned number no larger than `max`.
pub open spec fn unsigned_of(s: Seq<char>, max: nat) -> Result<nat, NumberError> {
    let d = unsigned_digits(s);
    if s.len() == 0 {
        Err(NumberError::Empty)
    } else if d.len() == 0 || !all_digits(d) {
        Err(NumberError::InvalidDigit)
    } else if digits_value(d) > max {
        Err(NumberError::TooLarge)
    } else {
        Ok(digits_value(d))
    }
}

pub proof fn lemma_decimal_digits(n: nat)
    ensures
        all_digits(decimal(n)),
        digits_value(decimal(n)) == n,
        decimal(n).len() >= 1,
        n < 10 <==> decimal(n).len() == 1,
    decreases n,
{
    lemma_digit_char(n % 10);
    if n >= 10 {
        lemma_decimal_digits(n / 10);
        let d = decimal(n);
        assert(d.drop_last() =~= decimal(n / 10));
        assert(d.last() == digit_char(n % 10));
        assert(n == (n / 10) * 10 + n % 10) by (nonlinear_arith);
        assert(digits_value(d) == digits_value(decimal(n / 10)) * 10 + digit_value(digit_char(n % 10)));
        assert forall|i: int| 0 <= i < d.len() implies is_digit(#[trigger] d[i]) by {
            if i < d.len() - 1 {
                assert(d[i] == decimal(n / 10)[i]);
            }
        }
    } else {
        assert(n % 10 == n);
        let d = decimal(n);
        assert(d.drop_last() =~= Seq::<char>::empty());
        assert(digits_value(d.drop_last()) == 0);
        assert(digits_value(d) == digit_value(digit_char(n)));
    }
}

pub proof fn lemma_padded_digits(n: nat, width: nat)
    ensures
        all_digits(padded(n, width)),
        digits_value(padded(n, width)) == n,
        padded(n, width).len() >= width,
{
    lemma_decimal_digits(n);
    let d = decimal(n);
    if d.len() < width {
        let z = Seq::new((width - d.len()) as nat, |i: int| '0');
        lemma_zeros_then_digits(z, d);
    }
}

proof fn lemma_zeros_then_digits(z: Seq<char>, d: Seq<char>)
    requires
        forall|i: int| 0 <= i < z.len() ==> z[i] == '0',
        all_digits(d),
    ensures
        all_digits(z + d),
        digits_value(z + d) == digits_value(d),
    decreases d.len(),
{
    let s = z + d;
    assert forall|i: int| 0 <= i < s.len() implies is_digit(#[trigger] s[i]) by {
        if i < z.len() {
            assert(s[i] == z[i]);
        } else {
            assert(s[i] == d[i - z.len()]);
        }
    }
    if d.len() == 0 {
        assert(s =~= z);
        lemma_zeros_value(z);
    } else {
        assert(s.drop_last() =~= z + d.drop_last());
        lemma_zeros_then_digits(z, d.drop_last());
    }
}

proof fn lemma_zeros_value(z: Seq<char>)
    requires
        forall|i: int| 0 <= i < z.len() ==> z[i] == '0',
    ensures
        digits_value(z) == 0,
    decreases z.len(),
{
    if z.len() > 0 {
        lemma_zeros_value(z.drop_last());
    }
}

proof fn lemma_prefix_value_le(s: Seq<char>, k: int)
    requires
        0 <= k <= s.len(),
    ensures
        digits_value(s.subrange(0, k)) <= digits_value(s),
    decreases s.len() - k,
{
    if k < s.len() {
        lemma_prefix_value_le(s, k + 1);
        assert(s.subrange(0, k + 1).drop_last() =~= s.subrange(0, k));
    } else {
        assert(s.subrange(0, k) =~= s);
    }
}

proof fn lemma_digit_value_bound(c: char)
    requires
        is_digit(c),
    ensures
        digit_value(c) < 10,
{
}

/// `s` without its leading zeros; a last digit is kept.
pub open spec fn without_leading_zeros(s: Seq<char>) -> Seq<char>
    decreases s.len(),
{
    if s.len() > 1 && s[0] == '0' {
        without_leading_zeros(s.drop_first())
    } else {
        s
    }
}

proof fn lemma_digit_char_of_value(c: char)
    requires
        is_digit(c),
    ensures
        digit_value(c) < 10,
        digit_char(digit_value(c)) == c,
{
    let k = c as u32;
    assert(48 <= k <= 57);
    if k == 48 { assert(c == '0'); } else if k == 49 { assert(c == '1'); } else if k == 50 { assert(c == '2'); }
    else if k == 51 { assert(c == '3'); } else if k == 52 { assert(c == '4'); } else if k == 53 { assert(c == '5'); }
    else if k == 54 { assert(c == '6'); } else if k == 55 { assert(c == '7'); } else if k == 56 { assert(c == '8'); }
    else { assert(c == '9'); }
}

proof fn lemma_canonical_decimal(u: Seq<char>)
    requires
        all_digits(u),
        u.len() > 0,
        u.len() == 1 || u[0] != '0',
    ensures
        decimal(digits_value(u)) == u,
    decreases u.len(),
{
    let c = u.last();
    assert(is_digit(u[u.len() - 1]));
    lemma_digit_char_of_value(c);
    let p = u.drop_last();
    if u.len() == 1 {
        assert(p =~= Seq::<char>::empty());
        assert(digits_value(p) == 0);
        assert(decimal(digits_value(u)) =~= u);
    } else {
        assert(all_digits(p)) by {
            assert forall|i: int| 0 <= i < p.len() implies is_digit(#[trigger] p[i]) by {
                assert(p[i] == u[i]);
            }
        }
        assert(p[0] == u[0]);
        lemma_canonical_decimal(p);
        lemma_prefix_value_le(p, 1);
        let one = p.subrange(0, 1);
        assert(one.drop_last() =~= Seq::<char>::empty());
        assert(digits_value(one.drop_last()) == 0);
        assert(is_digit(u[0]));
        assert(u[0] != '0');
        assert(digit_value(u[0]) >= 1);
        assert(digits_value(one) == digit_value(u[0]));
        let v1 = digits_value(p);
        let d = digit_value(c);
        let v = digits_value(u);
        assert(v == v1 * 10 + d);
        assert(v >= 10 && v / 10 == v1 && v % 10 == d) by (nonlinear_arith)
            requires
                v == v1 * 10 + d,
                v1 >= 1,
                d < 10,
        ;
        assert(decimal(v) == decimal(v / 10).push(digit_char(v % 10)));
        assert(decimal(v) =~= u);
    }
}

/// A run of digits keeps its value without its leading zeros, and the
/// shortest decimal text of that value is exactly the run without them.
pub proof fn lemma_digits_without_leading_zeros(s: Seq<char>)
    requires
        all_digits(s),
        s.len() > 0,
    ensures
        digits_value(without_leading_zeros(s)) == digits_value(s),
        decimal(digits_value(s)) == without_leading_zeros(s),
    decreases s.len(),
{
    if s.len() > 1 && s[0] == '0' {
        let rest = s.drop_first();
        assert(all_digits(rest)) by {
            assert forall|i: int| 0 <= i < rest.len() implies is_digit(#[trigger] rest[i]) by {
                assert(rest[i] == s[i + 1]);
            }
        }
        lemma_digits_without_leading_zeros(rest);
        assert(s =~= seq!['0'] + rest);
        lemma_zeros_then_digits(seq!['0'], rest);
    } else {
        lemma_canonical_decimal(s);
    }
}

/// Appends one character.
/// Relies on String::push, which appends the character at the end.
#[verifier::external_body]
pub(crate) fn push_char(s: &mut String, c: char)
    ensures
        final(s)@ == old(s)@.push(c),
{
    s.push(c)
}

/// Appends a string slice.
/// Relies on String::push_str, which appends the slice at the end.
#[verifier::external_body]
pub(crate) fn push_str(s: &mut String, t: &str)
    ensures
        final(s)@ == old(s)@ + t@,
{
    s.push_str(t)
}

/// The characters of a string slice, in order.
pub fn chars_of(s: &str) -> (r: Vec<char>)
    ensures
        r@ == s@,
{
    let n = s.unicode_len();
    let mut r: Vec<char> = Vec::new();
    let mut i: usize = 0;
    while i < n
        invariant
            n == s@.len(),
            i <= n,
            r@ == s@.subrange(0, i as int),
        decreases n - i,
    {
        r.push(s.get_char(i));
        i = i + 1;
    }
    assert(r@ =~= s@);
    r
}

/// The first position of `c` in `cs`, or the length where there is none.
pub fn find_char(cs: &[char], c: char) -> (r: usize)
    ensures
        r <= cs@.len(),
        r < cs@.len() ==> first_at(cs@, c, r as int),
        r == cs@.len() ==> !contains_char(cs@, c),
{
    find_char_from(cs, c, 0)
}

/// The first position of `c` in `cs` at or after `start`, or the length
/// where there is none.
pub fn find_char_from(cs: &[char], c: char, start: usize) -> (r: usize)
    requires
        start <= cs@.len(),
    ensures
        start <= r <= cs@.len(),
        r < cs@.len() ==> cs@[r as int] == c,
        forall|j: int| start <= j < r ==> cs@[j] != c,
        r < cs@.len() ==> first_at(cs@.subrange(start as int, cs@.len() as int), c, r - start),
        r == cs@.len() ==> !contains_char(cs@.subrange(start as int, cs@.len() as int), c),
{
    let mut i: usize = start;
    while i < cs.len()
        invariant
            start <= i <= cs@.len(),
            forall|j: int| start <= j < i ==> cs@[j] != c,
        ensures
            start <= i <= cs@.len(),
            forall|j: int| start <= j < i ==> cs@[j] != c,
            i < cs@.len() ==> cs@[i as int] == c,
        decreases cs@.len() - i,
    {
        if cs[i] == c {
            break;
        }
        i = i + 1;
    }
    let ghost t = cs@.subrange(start as int, cs@.len() as int);
    assert forall|j: int| 0 <= j < i - start implies t[j] != c by {
        assert(t[j] == cs@[start + j]);
    }
    if i == cs.len() {
        assert forall|j: int| 0 <= j < t.len() implies t[j] != c by {
            assert(t[j] == cs@[start + j]);
        }
    }
    i
}

/// Whether two texts are the same.
pub fn same_text(a: &str, b: &str) -> (r: bool)
    ensures
        r == (a@ == b@),
{
    let n = a.unicode_len();
    if n != b.unicode_len() {
        return false;
    }
    let mut i: usize = 0;
    while i < n
        invariant
            n == a@.len() == b@.len(),
            i <= n,
            a@.subrange(0, i as int) == b@.subrange(0, i as int),
        decreases n - i,
    {
        if a.get_char(i) != b.get_char(i) {
            return false;
        }
        assert(a@.subrange(0, i + 1) =~= a@.subrange(0, i as int).push(a@[i as int]));
        assert(b@.subrange(0, i + 1) =~= b@.subrange(0, i as int).push(b@[i as int]));
        i = i + 1;
    }
    assert(a@ =~= a@.subrange(0, n as int));
    assert(b@ =~= b@.subrange(0, n as int));
    true
}

/// A string holding the characters `cs[lo..hi]`.
pub fn string_of(cs: &[char], lo: usize, hi: usize) -> (r: String)
    requires
        lo <= hi <= cs@.len(),
    ensures
        r@ == cs@.subrange(lo as int, hi as int),
{
    let mut r = String::new();
    let mut i: usize = lo;
    while i < hi
        invariant
            lo <= i <= hi <= cs@.len(),
            r@ == cs@.subrange(lo as int, i as int),
        decreases hi - i,
    {
        push_char(&mut r, cs[i]);
        i = i + 1;
        assert(r@ =~= cs@.subrange(lo as int, i as int));
    }
    r
}

pub fn decimal_digit(d: u64) -> (c: char)
    requires
        d < 10,
    ensures
        c == digit_char(d as nat),
        is_digit(c),
{
    if d == 0 {
        '0'
    } else if d == 1 {
        '1'
    } else if d == 2 {
        '2'
    } else if d == 3 {
        '3'
    } else if d == 4 {
        '4'
    } else if d == 5 {
        '5'
    } else if d == 6 {
        '6'
    } else if d == 7 {
        '7'
    } else if d == 8 {
        '8'
    } else {
        '9'
    }
}

/// Appends the shortest decimal text of `n`.
pub fn push_decimal(out: &mut String, n: u64)
    ensures
        final(out)@ == old(out)@ + decimal(n as nat),
    decreases n,
{
    if n >= 10 {
        push_decimal(out, n / 10);
    }
    let c = decimal_digit(n % 10);
    push_char(out, c);
    assert(final(out)@ =~= old(out)@ + decimal(n as nat));
}

/// Appends the decimal text of `n`, zero-padded to `width` characters.
pub fn push_padded(out: &mut String, n: u64, width: usize)
    ensures
        final(out)@ == old(out)@ + padded(n as nat, width as nat),
{
    let digits = decimal_string(n);
    let len = digits.as_str().unicode_len();
    let ghost start = out@;
    if len < width {
        let mut k: usize = len;
        while k < width
            invariant
                len <= k <= width,
                out@ == start + Seq::new((k - len) as nat, |i: int| '0'),
            decreases width - k,
        {
            push_char(out, '0');
            k = k + 1;
            assert(out@ =~= start + Seq::new((k - len) as nat, |i: int| '0'));
        }
    }
    push_str(out, digits.as_str());
    assert(out@ =~= start + padded(n as nat, width as nat));
}

/// The text of `n`.
pub fn decimal_string(n: u64) -> (r: String)
    ensures
        r@ == decimal(n as nat),
{
    let mut r = String::new();
    push_decimal(&mut r, n);
    assert(r@ =~= decimal(n as nat));
    r
}

/// Reads `cs[lo..hi]` as an unsigned number no larger than `max`, in the
/// syntax of Rust's unsigned integers: an optional `+`, then digits.
pub fn parse_unsigned(cs: &[char], lo: usize, hi: usize, max: u64) -> (r: Result<u64, NumberError>)
    requires
        lo <= hi <= cs@.len(),
    ensures
        match unsigned_of(cs@.subrange(lo as int, hi as int), max as nat) {
            Ok(v) => r == Ok::<u64, NumberError>(v as u64),
            Err(e) => r == Err::<u64, NumberError>(e),
        },
{
    let ghost s = cs@.subrange(lo as int, hi as int);
    if lo == hi {
        return Err(NumberError::Empty);
    }
    let mut start = lo;
    if cs[lo] == '+' {
        start = lo + 1;
    }
    let ghost d = cs@.subrange(start as int, hi as int);
    assert(d =~= unsigned_digits(s));
    if start == hi {
        return Err(NumberError::InvalidDigit);
    }
    let mut i = start;
    while i < hi
        invariant
            lo < start <= hi || lo == start < hi,
            start <= i <= hi <= cs@.len(),
            s == cs@.subrange(lo as int, hi as int),
            d == unsigned_digits(s),
            d.len() > 0,
            d == cs@.subrange(start as int, hi as int),
            forall|j: int| start <= j < i ==> is_digit(#[trigger] cs@[j]),
        decreases hi - i,
    {
        let c = cs[i];
        if !('0' <= c && c <= '9') {
            assert(!is_digit(d[i - start]));
            return Err(NumberError::InvalidDigit);
        }
        i = i + 1;
    }
    assert(all_digits(d)) by {
        assert forall|j: int| 0 <= j < d.len() implies is_digit(#[trigger] d[j]) by {
            assert(d[j] == cs@[start + j]);
        }
    }
    let mut v: u64 = 0;
    let mut k = start;
    while k < hi
        invariant
            start <= k <= hi <= cs@.len(),
            s == cs@.subrange(lo as int, hi as int),
            s.len() > 0,
            d == unsigned_digits(s),
            d.len() > 0,
            d == cs@.subrange(start as int, hi as int),
            all_digits(d),
            v as nat == digits_value(d.subrange(0, k - start)),
            v <= max,
        decreases hi - k,
    {
        let c = cs[k];
        assert(c == d[k - start]);
        assert(is_digit(c));
        let digit = (c as u32 - 48) as u64;
        let next: u128 = (v as u128) * 10 + (digit as u128);
        let ghost p = d.subrange(0, k + 1 - start);
        assert(p.drop_last() =~= d.subrange(0, k - start));
        assert(p.last() == c);
        if next > max as u128 {
            proof {
                lemma_digit_value_bound(c);
                lemma_prefix_value_le(d, k + 1 - start);
            }
            return Err(NumberError::TooLarge);
        }
        v = next as u64;
        k = k + 1;
    }
    assert(d.subrange(0, hi - start) =~= d);
    Ok(v)
}

} // verus!
