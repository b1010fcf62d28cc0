//! Plain-text building blocks for the line-oriented storage format:
//! decimal digits, unsigned numbers, fixed-point amounts with two
//! fractional digits, and splitting / joining on separator characters.

use vstd::prelude::*;
use vstd::string::*;

verus! {

/// Numeric value of a decimal digit character, or 10 for any other character.
pub open spec fn digit_of(c: char) -> int {
    if c == '0' {
        0
    } else if c == '1' {
        1
    } else if c == '2' {
        2
    } else if c == '3' {
        3
    } else if c == '4' {
        4
    } else if c == '5' {
        5
    } else if c == '6' {
        6
    } else if c == '7' {
        7
    } else if c == '8' {
        8
    } else if c == '9' {
        9
    } else {
        10
    }
}

pub open spec fn is_digit(c: char) -> bool {
    digit_of(c) < 10
}

/// The decimal digit character for a value in 0..=9 ('0' otherwise).
pub open spec fn digit_char(d: int) -> char {
    if d == 1 {
        '1'
    } else if d == 2 {
        '2'
    } else if d == 3 {
        '3'
    } else if d == 4 {
        '4'
    } else if d == 5 {
        '5'
    } else if d == 6 {
        '6'
    } else if d == 7 {
        '7'
    } else if d == 8 {
        '8'
    } else if d == 9 {
        '9'
    } else {
        '0'
    }
}

pub open spec fn all_digits(s: Seq<char>) -> bool {
    forall|i: int| 0 <= i < s.len() ==> is_digit(#[trigger] s[i])
}

/// Value of a digit string read in base 10 (0 for the empty string).
pub open spec fn dec_val(s: Seq<char>) -> int
    decreases s.len(),
{
    if s.len() == 0 {
        0
    } else {
        dec_val(s.drop_last()) * 10 + digit_of(s.last())
    }
}

/// The canonical decimal digit string of a nonnegative number
/// (no leading zeros, except for "0" itself).
pub open spec fn dec_digits(n: nat) -> Seq<char>
    decreases n,
{
    if n < 10 {
        seq![digit_char(n as int)]
    } else {
        dec_digits(n / 10).push(digit_char((n % 10) as int))
    }
}

pub proof fn lemma_digit_char_of(d: int)
    requires
        0 <= d <= 9,
    ensures
        digit_of(digit_char(d)) == d,
        is_digit(digit_char(d)),
{
}

pub proof fn lemma_dec_digits_val(n: nat)
    ensures
        dec_digits(n).len() >= 1,
        all_digits(dec_digits(n)),
        dec_val(dec_digits(n)) == n,
    decreases n,
{
    if n < 10 {
        lemma_digit_char_of(n as int);
        let s = dec_digits(n);
        assert(s.len() == 1);
        assert(s.last() == digit_char(n as int));
        assert(s.drop_last() =~= Seq::<char>::empty());
        assert(dec_val(Seq::<char>::empty()) == 0);
        assert(dec_val(s) == dec_val(s.drop_last()) * 10 + digit_of(s.last()));
    } else {
        lemma_dec_digits_val(n / 10);
        lemma_digit_char_of((n % 10) as int);
        let s = dec_digits(n);
        let p = dec_digits(n / 10);
        assert(s.drop_last() =~= p);
        assert(s.last() == digit_char((n % 10) as int));
        assert(dec_val(s) == dec_val(p) * 10 + (n % 10));
        assert(dec_val(s) == (n / 10) * 10 + (n % 10));
        assert(n == (n / 10) * 10 + (n % 10)) by (nonlinear_arith);
        assert forall|i: int| 0 <= i < s.len() implies is_digit(#[trigger] s[i]) by {
            if i < p.len() {
                assert(s[i] == p[i]);
            } else {
                assert(s[i] == s.last());
            }
        }
    }
}

/// Appends one decimal digit character to a string.
fn push_digit(s: &mut String, d: u32)
    requires
        d <= 9,
    ensures
        final(s)@ == old(s)@.push(digit_char(d as int)),
{
    match d {
        0 => s.append("0"),
        1 => s.append("1"),
        2 => s.append("2"),
        3 => s.append("3"),
        4 => s.append("4"),
        5 => s.append("5"),
        6 => s.append("6"),
        7 => s.append("7"),
        8 => s.append("8"),
        _ => s.append("9"),
    }
    proof {
        reveal_strlit("0");
        reveal_strlit("1");
        reveal_strlit("2");
        reveal_strlit("3");
        reveal_strlit("4");
        reveal_strlit("5");
        reveal_strlit("6");
        reveal_strlit("7");
        reveal_strlit("8");
        reveal_strlit("9");
        assert(s@ =~= old(s)@.push(digit_char(d as int)));
    }
}

/// Appends the canonical decimal rendering of `n`.
pub fn push_u32(s: &mut String, n: u32)
    ensures
        final(s)@ == old(s)@ + dec_digits(n as nat),
    decreases n,
{
    if n >= 10 {
        push_u32(s, n / 10);
    }
    push_digit(s, n % 10);
    proof {
        if n >= 10 {
            assert(s@ =~= old(s)@ + dec_digits(n as nat));
        } else {
            assert(s@ =~= old(s)@ + dec_digits(n as nat));
        }
    }
}

/// Appends the canonical decimal rendering of a count.
pub fn push_usize(s: &mut String, n: usize)
    ensures
        final(s)@ == old(s)@ + dec_digits(n as nat),
    decreases n,
{
    if n >= 10 {
        push_usize(s, n / 10);
    }
    push_digit(s, (n % 10) as u32);
    proof {
        assert(s@ =~= old(s)@ + dec_digits(n as nat));
    }
}

/// A digit string keeps at least the value of any of its prefixes.
pub proof fn lemma_dec_val_prefix(s: Seq<char>, i: int)
    requires
        0 <= i <= s.len(),
        all_digits(s),
    ensures
        dec_val(s) >= dec_val(s.take(i)),
    decreases s.len() - i,
{
    if i < s.len() {
        assert(s.take(i + 1).drop_last() =~= s.take(i));
        assert(s.take(i + 1).last() == s[i]);
        assert(dec_val(s.take(i + 1)) == dec_val(s.take(i)) * 10 + digit_of(s[i]));
        assert(dec_val(s.take(i)) >= 0) by {
            lemma_dec_val_nonneg(s.take(i));
        }
        lemma_dec_val_prefix(s, i + 1);
        assert(s.take(s.len() as int) =~= s);
    } else {
        assert(s.take(i) =~= s);
    }
}

pub proof fn lemma_dec_val_nonneg(s: Seq<char>)
    requires
        all_digits(s),
    ensures
        dec_val(s) >= 0,
    decreases s.len(),
{
    if s.len() > 0 {
        assert(all_digits(s.drop_last())) by {
            assert(forall|i: int|
                0 <= i < s.drop_last().len() ==> #[trigger] s.drop_last()[i] == s[i]);
        }
        lemma_dec_val_nonneg(s.drop_last());
    }
}

/// Parses a nonempty all-digit string as a `u32`; `None` when the string
/// is empty, holds a non-digit, or its value does not fit.
pub open spec fn parse_u32_spec(s: Seq<char>) -> Option<u32> {
    if s.len() >= 1 && all_digits(s) && dec_val(s) <= u32::MAX {
        Some(dec_val(s) as u32)
    } else {
        None
    }
}

fn digit_value(c: char) -> (r: u32)
    ensures
        r == digit_of(c),
{
    match c {
        '0' => 0,
        '1' => 1,
        '2' => 2,
        '3' => 3,
        '4' => 4,
        '5' => 5,
        '6' => 6,
        '7' => 7,
        '8' => 8,
        '9' => 9,
        _ => 10,
    }
}

pub fn parse_u32(s: &str) -> (r: Option<u32>)
    ensures
        r == parse_u32_spec(s@),
{
    let n = s.unicode_len();
    if n == 0 {
        return None;
    }
    let mut acc: u64 = 0;
    let mut i: usize = 0;
    while i < n
        invariant
            0 < n == s@.len(),
            0 <= i <= n,
            all_digits(s@.take(i as int)),
            acc == dec_val(s@.take(i as int)),
            acc <= u32::MAX,
        decreases n - i,
    {
        let c = s.get_char(i);
        let d = digit_value(c);
        if d >= 10 {
            assert(!is_digit(s@[i as int]));
            return None;
        }
        let next = acc * 10 + (d as u64);
        proof {
            assert(s@.take(i + 1).drop_last() =~= s@.take(i as int));
            assert(s@.take(i + 1).last() == s@[i as int]);
        }
        if next > u32::MAX as u64 {
            proof {
                if all_digits(s@) {
                    lemma_dec_val_prefix(s@, i + 1);
                    assert(s@.take(s@.len() as int) =~= s@);
                    assert(dec_val(s@) > u32::MAX);
                }
            }
            return None;
        }
        acc = next;
        i = i + 1;
    }
    proof {
        assert(s@.take(n as int) =~= s@);
    }
    Some(acc as u32)
}

/// Index of the first occurrence of `c` in `s`, or `s.len()` when absent.
pub open spec fn first_index_of(s: Seq<char>, c: char) -> int
    decreases s.len(),
{
    if s.len() == 0 {
        0
    } else if s[0] == c {
        0
    } else {
        1 + first_index_of(s.drop_first(), c)
    }
}

pub proof fn lemma_first_index_of(s: Seq<char>, c: char)
    ensures
        0 <= first_index_of(s, c) <= s.len(),
        first_index_of(s, c) < s.len() ==> s[first_index_of(s, c)] == c,
        forall|j: int| 0 <= j < first_index_of(s, c) ==> s[j] != c,
    decreases s.len(),
{
    if s.len() > 0 && s[0] != c {
        lemma_first_index_of(s.drop_first(), c);
        assert forall|j: int| 0 <= j < first_index_of(s, c) implies s[j] != c by {
            if j > 0 {
                assert(s.drop_first()[j - 1] == s[j]);
            }
        }
    }
}

/// When `c` does not occur in `s`, its first index is `s.len()`.
pub proof fn lemma_first_index_absent(s: Seq<char>, c: char)
    requires
        forall|j: int| 0 <= j < s.len() ==> s[j] != c,
    ensures
        first_index_of(s, c) == s.len(),
    decreases s.len(),
{
    if s.len() > 0 {
        lemma_first_index_absent(s.drop_first(), c);
    }
}

/// Finds the first occurrence of `c`, scanning left to right.
pub fn find_char(s: &str, c: char) -> (r: usize)
    ensures
        r == first_index_of(s@, c),
{
    let n = s.unicode_len();
    let mut i: usize = 0;
    while i < n
        invariant
            0 <= i <= n == s@.len(),
            forall|j: int| 0 <= j < i ==> s@[j] != c,
        decreases n - i,
    {
        if s.get_char(i) == c {
            proof {
                assert(s@ =~= s@.take(i as int) + seq![c] + s@.skip(i + 1));
                lemma_first_index_glue(s@.take(i as int), c, s@.skip(i + 1));
                assert(s@.take(i as int).len() == i);
            }
            return i;
        }
        i = i + 1;
    }
    proof {
        lemma_first_index_absent(s@, c);
    }
    n
}

/// The first index of `c` in `a + [c] + b` is `a.len()` when `a` avoids `c`.
pub proof fn lemma_first_index_glue(a: Seq<char>, c: char, b: Seq<char>)
    requires
        forall|j: int| 0 <= j < a.len() ==> a[j] != c,
    ensures
        first_index_of(a + seq![c] + b, c) == a.len(),
    decreases a.len(),
{
    let s = a + seq![c] + b;
    if a.len() == 0 {
        assert(s[0] == c);
    } else {
        assert(s[0] == a[0]);
        assert(s.drop_first() =~= a.drop_first() + seq![c] + b);
        lemma_first_index_glue(a.drop_first(), c, b);
    }
}

/// A digit string never holds a character that is not a digit.
pub proof fn lemma_digits_avoid(s: Seq<char>, c: char)
    requires
        all_digits(s),
        !is_digit(c),
    ensures
        forall|j: int| 0 <= j < s.len() ==> s[j] != c,
{
}

/// A two-digit zero-padded rendering of a value below 100.
pub open spec fn pad2_digits(n: nat) -> Seq<char> {
    seq![digit_char((n / 10) as int), digit_char((n % 10) as int)]
}

/// A four-digit zero-padded rendering of a value below 10000.
pub open spec fn pad4_digits(n: nat) -> Seq<char> {
    seq![
        digit_char((n / 1000) as int),
        digit_char(((n / 100) % 10) as int),
        digit_char(((n / 10) % 10) as int),
        digit_char((n % 10) as int),
    ]
}

pub proof fn lemma_pad2_val(n: nat)
    requires
        n <= 99,
    ensures
        pad2_digits(n).len() == 2,
        all_digits(pad2_digits(n)),
        dec_val(pad2_digits(n)) == n,
{
    let s = pad2_digits(n);
    lemma_digit_char_of((n / 10) as int);
    lemma_digit_char_of((n % 10) as int);
    assert(dec_val(Seq::<char>::empty()) == 0);
    assert(s.drop_last() =~= seq![digit_char((n / 10) as int)]);
    assert(s.drop_last().drop_last() =~= Seq::<char>::empty());
    assert(dec_val(s.drop_last()) == dec_val(s.drop_last().drop_last()) * 10 + digit_of(
        s.drop_last().last(),
    ));
    assert(dec_val(s) == dec_val(s.drop_last()) * 10 + digit_of(s.last()));
    assert forall|i: int| 0 <= i < s.len() implies is_digit(#[trigger] s[i]) by {
        if i == 0 {
            assert(s[i] == digit_char((n / 10) as int));
        } else {
            assert(s[i] == digit_char((n % 10) as int));
        }
    }
}

pub proof fn lemma_pad4_val(n: nat)
    requires
        n <= 9999,
    ensures
        pad4_digits(n).len() == 4,
        all_digits(pad4_digits(n)),
        dec_val(pad4_digits(n)) == n,
{
    let s = pad4_digits(n);
    lemma_digit_char_of((n / 1000) as int);
    lemma_digit_char_of(((n / 100) % 10) as int);
    lemma_digit_char_of(((n / 10) % 10) as int);
    lemma_digit_char_of((n % 10) as int);
    let s3 = s.drop_last();
    let s2 = s3.drop_last();
    let s1 = s2.drop_last();
    assert(s1.drop_last() =~= Seq::<char>::empty());
    assert(dec_val(Seq::<char>::empty()) == 0);
    assert(s1 =~= seq![digit_char((n / 1000) as int)]);
    assert(s2 =~= seq![digit_char((n / 1000) as int), digit_char(((n / 100) % 10) as int)]);
    assert(s3 =~= seq![
        digit_char((n / 1000) as int),
        digit_char(((n / 100) % 10) as int),
        digit_char(((n / 10) % 10) as int),
    ]);
    assert(dec_val(s1) == dec_val(s1.drop_last()) * 10 + digit_of(s1.last()));
    assert(dec_val(s2) == dec_val(s1) * 10 + digit_of(s2.last()));
    assert(dec_val(s3) == dec_val(s2) * 10 + digit_of(s3.last()));
    assert(dec_val(s) == dec_val(s3) * 10 + digit_of(s.last()));
    assert(n / 1000 * 10 + (n / 100) % 10 == n / 100) by (nonlinear_arith);
    assert(n / 100 * 10 + (n / 10) % 10 == n / 10) by (nonlinear_arith);
    assert(n / 10 * 10 + n % 10 == n) by (nonlinear_arith);
    assert forall|i: int| 0 <= i < s.len() implies is_digit(#[trigger] s[i]) by {
        assert(s[0] == digit_char((n / 1000) as int));
        assert(s[1] == digit_char(((n / 100) % 10) as int));
        assert(s[2] == digit_char(((n / 10) % 10) as int));
        assert(s[3] == digit_char((n % 10) as int));
    }
}

/// Appends a two-digit zero-padded value.
pub fn push_pad2(s: &mut String, n: u32)
    requires
        n <= 99,
    ensures
        final(s)@ == old(s)@ + pad2_digits(n as nat),
{
    push_digit(s, n / 10);
    push_digit(s, n % 10);
    proof {
        assert(s@ =~= old(s)@ + pad2_digits(n as nat));
    }
}

/// Appends a four-digit zero-padded value.
pub fn push_pad4(s: &mut String, n: u32)
    requires
        n <= 9999,
    ensures
        final(s)@ == old(s)@ + pad4_digits(n as nat),
{
    push_digit(s, n / 1000);
    push_digit(s, (n / 100) % 10);
    push_digit(s, (n / 10) % 10);
    push_digit(s, n % 10);
    proof {
        assert(s@ =~= old(s)@ + pad4_digits(n as nat));
    }
}

pub open spec fn pow10(n: nat) -> int
    decreases n,
{
    if n == 0 {
        1
    } else {
        10 * pow10((n - 1) as nat)
    }
}

/// A digit string's value is bounded by ten to the power of its length.
pub proof fn lemma_dec_val_bound(s: Seq<char>)
    requires
        all_digits(s),
    ensures
        0 <= dec_val(s) < pow10(s.len()),
    decreases s.len(),
{
    if s.len() > 0 {
        assert(all_digits(s.drop_last())) by {
            assert(forall|i: int|
                0 <= i < s.drop_last().len() ==> #[trigger] s.drop_last()[i] == s[i]);
        }
        lemma_dec_val_bound(s.drop_last());
        assert(dec_val(s) == dec_val(s.drop_last()) * 10 + digit_of(s.last()));
    }
}

/// A digit string of at most two digits has a value below 100.
pub proof fn lemma_dec_val_two_digits(s: Seq<char>)
    requires
        all_digits(s),
        s.len() <= 2,
    ensures
        0 <= dec_val(s) <= 99,
{
    assert(dec_val(Seq::<char>::empty()) == 0);
    if s.len() == 1 {
        assert(s.drop_last() =~= Seq::<char>::empty());
        assert(dec_val(s) == dec_val(s.drop_last()) * 10 + digit_of(s.last()));
    } else if s.len() == 2 {
        let p = s.drop_last();
        assert(p.last() == s[0]);
        assert(is_digit(s[0]));
        assert(p.drop_last() =~= Seq::<char>::empty());
        assert(dec_val(p) == dec_val(p.drop_last()) * 10 + digit_of(p.last()));
        assert(dec_val(s) == dec_val(p) * 10 + digit_of(s.last()));
    }
}

/// Parses a fixed-point amount with up to two fractional digits, as an
/// integer count of hundredths: "12" is 1200, "12.5" is 1250, "12.50" is
/// 1250.  `None` when the shape is wrong or the value does not fit.
pub open spec fn parse_amount_spec(s: Seq<char>) -> Option<u32> {
    let d = first_index_of(s, '.');
    let whole = s.take(d);
    if whole.len() < 1 || !all_digits(whole) {
        None
    } else if d >= s.len() {
        if dec_val(whole) * 100 <= u32::MAX {
            Some((dec_val(whole) * 100) as u32)
        } else {
            None
        }
    } else {
        let frac = s.skip(d + 1);
        if !(1 <= frac.len() <= 2 && all_digits(frac)) {
            None
        } else {
            let v = dec_val(whole) * 100 + if frac.len() == 1 {
                dec_val(frac) * 10
            } else {
                dec_val(frac)
            };
            if v <= u32::MAX {
                Some(v as u32)
            } else {
                None
            }
        }
    }
}

pub fn parse_amount(s: &str) -> (r: Option<u32>)
    ensures
        r == parse_amount_spec(s@),
{
    let n = s.unicode_len();
    let d = find_char(s, '.');
    proof {
        lemma_first_index_of(s@, '.');
    }
    let whole_part = s.substring_char(0, d);
    assert(whole_part@ =~= s@.take(d as int));
    let w = match parse_u32(whole_part) {
        Some(w) => w,
        None => {
            proof {
                let whole = s@.take(d as int);
                if whole.len() >= 1 && all_digits(whole) {
                    assert(dec_val(whole) > u32::MAX);
                    assert(dec_val(whole) * 100 > u32::MAX);
                    if d < s@.len() {
                        let frac = s@.skip(d + 1);
                        if 1 <= frac.len() <= 2 && all_digits(frac) {
                            lemma_dec_val_nonneg(frac);
                        }
                    }
                }
            }
            return None;
        },
    };
    proof {
        lemma_dec_val_nonneg(s@.take(d as int));
    }
    if d == n {
        let v = (w as u64) * 100;
        if v > u32::MAX as u64 {
            None
        } else {
            Some(v as u32)
        }
    } else {
        let frac_part = s.substring_char(d + 1, n);
        assert(frac_part@ =~= s@.skip(d + 1));
        let flen = n - d - 1;
        if flen < 1 || flen > 2 {
            return None;
        }
        let f = match parse_u32(frac_part) {
            Some(f) => f,
            None => {
                proof {
                    let frac = s@.skip(d + 1);
                    if all_digits(frac) {
                        lemma_dec_val_two_digits(frac);
                    }
                }
                return None;
            },
        };
        proof {
            lemma_dec_val_nonneg(frac_part@);
        }
        let scaled: u64 = if flen == 1 {
            (f as u64) * 10
        } else {
            f as u64
        };
        let v = (w as u64) * 100 + scaled;
        if v > u32::MAX as u64 {
            None
        } else {
            Some(v as u32)
        }
    }
}

/// The canonical rendering of an amount in hundredths: the whole part,
/// a dot, and exactly two fractional digits.
pub open spec fn amount_digits(n: nat) -> Seq<char> {
    dec_digits(n / 100) + seq!['.', digit_char(((n % 100) / 10) as int), digit_char((n % 10) as int)]
}

/// Appends the canonical rendering of an amount in hundredths.
pub fn push_amount(s: &mut String, n: u32)
    ensures
        final(s)@ == old(s)@ + amount_digits(n as nat),
{
    push_u32(s, n / 100);
    s.append(".");
    push_digit(s, (n % 100) / 10);
    push_digit(s, n % 10);
    proof {
        reveal_strlit(".");
        assert(s@ =~= old(s)@ + amount_digits(n as nat));
    }
}

/// Parsing inverts formatting for whole numbers.
pub proof fn lemma_u32_round_trip(n: u32)
    ensures
        parse_u32_spec(dec_digits(n as nat)) == Some(n),
{
    lemma_dec_digits_val(n as nat);
}

/// Parsing inverts formatting for fixed-point amounts.
pub proof fn lemma_amount_round_trip(n: u32)
    ensures
        parse_amount_spec(amount_digits(n as nat)) == Some(n),
{
    let m = n as nat;
    let s = amount_digits(m);
    let whole = dec_digits(m / 100);
    let f1 = digit_char(((m % 100) / 10) as int);
    let f0 = digit_char((m % 10) as int);
    lemma_dec_digits_val(m / 100);
    lemma_digit_char_of(((m % 100) / 10) as int);
    lemma_digit_char_of((m % 10) as int);
    lemma_digits_avoid(whole, '.');
    assert(s =~= whole + seq!['.'] + seq![f1, f0]);
    lemma_first_index_glue(whole, '.', seq![f1, f0]);
    let d = first_index_of(s, '.');
    assert(d == whole.len());
    assert(s.take(d) =~= whole);
    let frac = s.skip(d + 1);
    assert(frac =~= seq![f1, f0]);
    assert(frac.last() == f0);
    assert(frac.drop_last() =~= seq![f1]);
    assert(seq![f1].drop_last() =~= Seq::<char>::empty());
    assert(dec_val(Seq::<char>::empty()) == 0);
    assert(dec_val(seq![f1]) == digit_of(f1));
    assert(dec_val(frac) == dec_val(seq![f1]) * 10 + digit_of(f0));
    assert forall|i: int| 0 <= i < frac.len() implies is_digit(#[trigger] frac[i]) by {
        if i == 0 {
            assert(frac[i] == f1);
        } else {
            assert(frac[i] == f0);
        }
    }
    assert((m % 100) / 10 * 10 + m % 10 == m % 100) by (nonlinear_arith);
    assert(m / 100 * 100 + m % 100 == m) by (nonlinear_arith);
    assert(dec_val(s.take(d)) * 100 + dec_val(frac) == m);
}

/// Splits on a separator; the separator itself appears in no piece, and an
/// absent separator yields the whole string as the single piece.
pub open spec fn split_spec(s: Seq<char>, sep: char) -> Seq<Seq<char>>
    decreases s.len(),
{
    let i = first_index_of(s, sep);
    if i >= s.len() {
        seq![s]
    } else {
        proof {
            lemma_first_index_of(s, sep);
        }
        seq![s.take(i)] + split_spec(s.skip(i + 1), sep)
    }
}

/// Joins pieces with a separator between consecutive pieces.
pub open spec fn join_spec(v: Seq<Seq<char>>, sep: char) -> Seq<char>
    decreases v.len(),
{
    if v.len() == 0 {
        Seq::empty()
    } else if v.len() == 1 {
        v[0]
    } else {
        v[0] + seq![sep] + join_spec(v.drop_first(), sep)
    }
}

/// The views of a sequence of strings.
pub open spec fn views_of(v: Seq<String>) -> Seq<Seq<char>> {
    Seq::new(v.len(), |i: int| v[i]@)
}

pub fn split_char(s: &str, sep: char) -> (r: Vec<String>)
    ensures
        views_of(r@) =~= split_spec(s@, sep),
    decreases s@.len(),
{
    let n = s.unicode_len();
    let d = find_char(s, sep);
    proof {
        lemma_first_index_of(s@, sep);
    }
    if d == n {
        let mut v: Vec<String> = Vec::new();
        v.push(s.to_owned());
        assert(views_of(v@) =~= seq![s@]);
        v
    } else {
        let head = s.substring_char(0, d).to_owned();
        let tail = s.substring_char(d + 1, n);
        assert(tail@ =~= s@.skip(d + 1));
        let mut v = split_char(tail, sep);
        let ghost pre = v@;
        v.insert(0, head);
        proof {
            let full = split_spec(s@, sep);
            assert(full =~= seq![s@.take(d as int)] + split_spec(s@.skip(d + 1), sep));
            assert forall|i: int| 0 <= i < v@.len() implies views_of(v@)[i] == full[i] by {
                if i > 0 {
                    assert(v@[i] == pre[i - 1]);
                }
            }
        }
        v
    }
}

/// Joining after appending one more piece adds a separator and the piece.
pub proof fn lemma_join_push(v: Seq<Seq<char>>, e: Seq<char>, sep: char)
    ensures
        join_spec(v.push(e), sep) == if v.len() == 0 {
            e
        } else {
            join_spec(v, sep) + seq![sep] + e
        },
    decreases v.len(),
{
    let w = v.push(e);
    if v.len() == 0 {
        assert(w.len() == 1);
        assert(join_spec(w, sep) == w[0]);
        assert(w[0] == e);
    } else {
        lemma_join_push(v.drop_first(), e, sep);
        assert(w.drop_first() =~= v.drop_first().push(e));
        assert(w[0] == v[0]);
        if v.len() == 1 {
            assert(v.drop_first().len() == 0);
            assert(join_spec(w, sep) == w[0] + seq![sep] + join_spec(w.drop_first(), sep));
            assert(join_spec(w.drop_first(), sep) == e);
            assert(join_spec(v, sep) == v[0]);
        } else {
            assert(join_spec(w, sep) == w[0] + seq![sep] + join_spec(w.drop_first(), sep));
            assert(join_spec(v, sep) + seq![sep] + e =~= v[0] + seq![sep] + (join_spec(
                v.drop_first(),
                sep,
            ) + seq![sep] + e));
        }
    }
}

pub fn join_char(v: &Vec<String>, sep: char, sep_text: &str) -> (r: String)
    requires
        sep_text@ == seq![sep],
    ensures
        r@ == join_spec(views_of(v@), sep),
{
    let ghost views = views_of(v@);
    let mut out = String::new();
    let mut i: usize = 0;
    while i < v.len()
        invariant
            0 <= i <= v@.len(),
            sep_text@ == seq![sep],
            views == views_of(v@),
            out@ == join_spec(views.take(i as int), sep),
        decreases v@.len() - i,
    {
        if i > 0 {
            out.append(sep_text);
        }
        out.append(v[i].as_str());
        proof {
            assert(views.take(i + 1) =~= views.take(i as int).push(views[i as int]));
            lemma_join_push(views.take(i as int), views[i as int], sep);
        }
        i = i + 1;
    }
    proof {
        assert(views.take(v@.len() as int) =~= views);
    }
    out
}

/// Whether `s` is exactly the one-character string `c`.
pub fn text_is_single(s: &str, c: char) -> (r: bool)
    ensures
        r == (s@ == seq![c]),
{
    let n = s.unicode_len();
    if n != 1 {
        proof {
            if s@ == seq![c] {
                assert(s@.len() == 1);
            }
        }
        false
    } else {
        let hit = s.get_char(0) == c;
        proof {
            if hit {
                assert(s@ =~= seq![c]);
            } else {
                if s@ == seq![c] {
                    assert(s@[0] == c);
                }
            }
        }
        hit
    }
}

/// A join avoids every character that its pieces and separator avoid.
#[verifier::rlimit(50)]
pub proof fn lemma_join_avoids(v: Seq<Seq<char>>, sep: char, c: char)
    requires
        c != sep,
        forall|i: int, j: int| 0 <= i < v.len() && 0 <= j < v[i].len() ==> #[trigger] v[i][j] != c,
    ensures
        forall|k: int| 0 <= k < join_spec(v, sep).len() ==> #[trigger] join_spec(v, sep)[k] != c,
    decreases v.len(),
{
    let s = join_spec(v, sep);
    if v.len() == 0 {
    } else if v.len() == 1 {
        assert(s == v[0]);
    } else {
        assert forall|i: int, j: int|
            0 <= i < v.drop_first().len() && 0 <= j < v.drop_first()[i].len() implies #[trigger] v
            .drop_first()[i][j] != c by {
            assert(v.drop_first()[i] == v[i + 1]);
        }
        lemma_join_avoids(v.drop_first(), sep, c);
        let rest = join_spec(v.drop_first(), sep);
        assert(s == v[0] + seq![sep] + rest);
        assert forall|k: int| 0 <= k < s.len() implies #[trigger] s[k] != c by {
            if k < v[0].len() {
                assert(s[k] == v[0][k]);
            } else if k == v[0].len() {
                assert(s[k] == sep);
            } else {
                assert(s[k] == rest[k - v[0].len() - 1]);
            }
        }
    }
}

/// An amount rendering holds only digits and one dot.
pub proof fn lemma_amount_avoids(n: nat, c: char)
    requires
        !is_digit(c),
        c != '.',
    ensures
        forall|k: int|
            0 <= k < amount_digits(n).len() ==> #[trigger] amount_digits(n)[k] != c,
{
    let s = amount_digits(n);
    let whole = dec_digits(n / 100);
    lemma_dec_digits_val(n / 100);
    lemma_digit_char_of((((n % 100) / 10)) as int);
    lemma_digit_char_of((n % 10) as int);
    assert forall|k: int| 0 <= k < s.len() implies #[trigger] s[k] != c by {
        if k < whole.len() {
            assert(s[k] == whole[k]);
            assert(is_digit(whole[k]));
        } else if k == whole.len() {
            assert(s[k] == '.');
        } else if k == whole.len() + 1 {
            assert(s[k] == digit_char((((n % 100) / 10)) as int));
        } else {
            assert(s[k] == digit_char((n % 10) as int));
        }
    }
}

/// Splitting inverts joining when every piece avoids the separator and
/// there is at least one piece.
pub proof fn lemma_split_of_join(v: Seq<Seq<char>>, sep: char)
    requires
        v.len() >= 1,
        forall|i: int, j: int|
            0 <= i < v.len() && 0 <= j < v[i].len() ==> #[trigger] v[i][j] != sep,
    ensures
        split_spec(join_spec(v, sep), sep) =~= v,
    decreases v.len(),
{
    let s = join_spec(v, sep);
    if v.len() == 1 {
        assert(s == v[0]);
        lemma_first_index_absent(s, sep);
        assert(split_spec(s, sep) =~= seq![v[0]]);
    } else {
        let rest = join_spec(v.drop_first(), sep);
        assert(s == v[0] + seq![sep] + rest);
        lemma_first_index_glue(v[0], sep, rest);
        let d = first_index_of(s, sep);
        assert(d == v[0].len());
        assert(s.take(d) =~= v[0]);
        assert(s.skip(d + 1) =~= rest);
        assert forall|i: int, j: int|
            0 <= i < v.drop_first().len() && 0 <= j < v.drop_first()[i].len() implies #[trigger] v
            .drop_first()[i][j] != sep by {
            assert(v.drop_first()[i] == v[i + 1]);
        }
        lemma_split_of_join(v.drop_first(), sep);
        assert(split_spec(s, sep) =~= seq![s.take(d)] + split_spec(s.skip(d + 1), sep));
    }
}

} // verus!
