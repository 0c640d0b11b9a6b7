//! Decimal text codec for the board wire protocol: the bitmask travels as
//! a decimal string, and panel addresses as dotted quads. Formatting
//! produces the canonical rendering (no leading zeros); parsing is stated
//! against the same spec functions, which yields the round-trip laws.

use vstd::prelude::*;

verus! {

/// ASCII decimal digit.
pub open spec fn is_digit(c: char) -> bool {
    48 <= c as u32 && c as u32 <= 57
}

/// Numeric value of a digit character.
pub open spec fn digit_val(c: char) -> int {
    c as u32 - 48
}

/// The digit character for a value in `0..=9`.
pub open spec fn digit_char(d: int) -> char {
    if d == 0 {
        '0'
    } else if d == 1 {
        '1'
    } else if d == 2 {
        '2'
    } else if d == 3 {
        '3'
    } else if d == 4 {
        '4'
    } else if d == 5 {
        '5'
    } else if d == 6 {
        '6'
    } else if d == 7 {
        '7'
    } else if d == 8 {
        '8'
    } else {
        '9'
    }
}

/// Every character of the sequence is a decimal digit.
pub open spec fn all_digits(s: Seq<char>) -> bool {
    forall|i: int| 0 <= i < s.len() ==> is_digit(#[trigger] s[i])
}

/// The number a digit sequence denotes, most significant digit first.
pub open spec fn digits_val(s: Seq<char>) -> int
    decreases s.len(),
{
    if s.len() == 0 {
        0
    } else {
        digits_val(s.drop_last()) * 10 + digit_val(s.last())
    }
}

/// The canonical decimal rendering of a non-negative number: no sign, no
/// leading zeros (a single `'0'` for zero).
pub open spec fn decimal_chars(n: int) -> Seq<char>
    decreases n,
{
    if n < 10 {
        seq![digit_char(n)]
    } else {
        decimal_chars(n / 10).push(digit_char(n % 10))
    }
}

/// `digit_char` inverts `digit_val` on digit characters.
pub proof fn lemma_digit_char_inverse(c: char)
    requires
        is_digit(c),
    ensures
        digit_char(digit_val(c)) == c,
{
    vstd::utf8::char_u32_cast(c, c as u32);
    vstd::utf8::char_u32_cast('0', '0' as u32);
    vstd::utf8::char_u32_cast('1', '1' as u32);
    vstd::utf8::char_u32_cast('2', '2' as u32);
    vstd::utf8::char_u32_cast('3', '3' as u32);
    vstd::utf8::char_u32_cast('4', '4' as u32);
    vstd::utf8::char_u32_cast('5', '5' as u32);
    vstd::utf8::char_u32_cast('6', '6' as u32);
    vstd::utf8::char_u32_cast('7', '7' as u32);
    vstd::utf8::char_u32_cast('8', '8' as u32);
    vstd::utf8::char_u32_cast('9', '9' as u32);
}

/// `digit_char` yields a digit character denoting its argument.
pub proof fn lemma_digit_char_val(d: int)
    requires
        0 <= d <= 9,
    ensures
        is_digit(digit_char(d)),
        digit_val(digit_char(d)) == d,
{
}

/// A digit sequence denotes a non-negative number.
pub proof fn lemma_digits_val_nonneg(s: Seq<char>)
    requires
        all_digits(s),
    ensures
        digits_val(s) >= 0,
    decreases s.len(),
{
    if s.len() > 0 {
        lemma_digits_val_nonneg(s.drop_last());
    }
}

/// Extending a digit sequence never shrinks its value.
pub proof fn lemma_digits_val_prefix(s: Seq<char>, i: int)
    requires
        all_digits(s),
        0 <= i <= s.len(),
    ensures
        digits_val(s.take(i)) <= digits_val(s),
    decreases s.len() - i,
{
    if i < s.len() {
        lemma_digits_val_prefix(s, i + 1);
        let t = s.take(i + 1);
        assert(t.drop_last() =~= s.take(i));
        assert(all_digits(s.take(i))) by {
            assert(forall|k: int| 0 <= k < i ==> s.take(i)[k] == s[k]);
        }
        lemma_digits_val_nonneg(s.take(i));
        assert(digits_val(t) == digits_val(s.take(i)) * 10 + digit_val(t.last()));
    } else {
        assert(s.take(i) =~= s);
    }
}

/// A digit sequence of bounded length denotes a bounded value.
pub proof fn lemma_digits_val_bound(s: Seq<char>)
    requires
        all_digits(s),
    ensures
        s.len() == 0 ==> digits_val(s) == 0,
        s.len() <= 1 ==> digits_val(s) < 10,
        s.len() <= 2 ==> digits_val(s) < 100,
        s.len() <= 3 ==> digits_val(s) < 1000,
        s.len() <= 4 ==> digits_val(s) < 10000,
        s.len() <= 5 ==> digits_val(s) < 100000,
    decreases s.len(),
{
    if s.len() > 0 {
        let p = s.drop_last();
        assert(all_digits(p)) by {
            assert(forall|k: int| 0 <= k < p.len() ==> p[k] == s[k]);
        }
        lemma_digits_val_bound(p);
        assert(0 <= digit_val(s.last()) <= 9);
    }
}

/// The first index at or after `i` that does not hold a digit (or the end
/// of the sequence): the end of the digit run starting at `i`.
pub open spec fn digit_run_end(s: Seq<char>, i: int) -> int
    decreases s.len() - i when 0 <= i <= s.len()
{
    if i >= s.len() || !is_digit(s[i]) {
        i
    } else {
        digit_run_end(s, i + 1)
    }
}

/// Bounds and characterization of a digit run: everything before its
/// end is a digit, and the end is the sequence's end or a non-digit.
pub proof fn lemma_digit_run_end(s: Seq<char>, i: int)
    requires
        0 <= i <= s.len(),
    ensures
        i <= digit_run_end(s, i) <= s.len(),
        forall|k: int| i <= k < digit_run_end(s, i) ==> is_digit(#[trigger] s[k]),
        digit_run_end(s, i) == s.len() || !is_digit(s[digit_run_end(s, i)]),
    decreases s.len() - i,
{
    if i < s.len() && is_digit(s[i]) {
        lemma_digit_run_end(s, i + 1);
    }
}

/// A region of digits ending at a non-digit (or the end) is exactly the
/// digit run of its start.
pub proof fn lemma_digit_run_end_exact(s: Seq<char>, i: int, j: int)
    requires
        0 <= i <= j <= s.len(),
        forall|k: int| i <= k < j ==> is_digit(#[trigger] s[k]),
        j == s.len() || !is_digit(s[j]),
    ensures
        digit_run_end(s, i) == j,
    decreases j - i,
{
    if i < j {
        lemma_digit_run_end_exact(s, i + 1, j);
    }
}

/// The canonical rendering is made of digits, is never empty, never
/// carries a leading zero (except for zero itself), and denotes the
/// number it was made from.
pub proof fn lemma_decimal_chars(n: int)
    requires
        0 <= n,
    ensures
        all_digits(decimal_chars(n)),
        decimal_chars(n).len() >= 1,
        digits_val(decimal_chars(n)) == n,
        decimal_chars(n).len() > 1 ==> decimal_chars(n)[0] != '0',
        n < 10 ==> decimal_chars(n).len() == 1,
        n < 100 ==> decimal_chars(n).len() <= 2,
        n < 1000 ==> decimal_chars(n).len() <= 3,
        n < 10000 ==> decimal_chars(n).len() <= 4,
        n < 100000 ==> decimal_chars(n).len() <= 5,
    decreases n,
{
    if n < 10 {
        lemma_digit_char_val(n);
        let s = decimal_chars(n);
        assert(s == seq![digit_char(n)]);
        assert(s.len() == 1 && s.last() == digit_char(n));
        assert(s.drop_last() =~= Seq::<char>::empty());
        assert(digits_val(Seq::<char>::empty()) == 0);
        assert(digits_val(s) == digits_val(s.drop_last()) * 10 + digit_val(s.last()));
    } else {
        lemma_decimal_chars(n / 10);
        lemma_digit_char_val(n % 10);
        let p = decimal_chars(n / 10);
        let s = decimal_chars(n);
        assert(s.drop_last() =~= p);
        assert(digits_val(s) == (n / 10) * 10 + n % 10);
        assert(s[0] == p[0]);
        if p.len() == 1 {
            assert(p.drop_last() =~= Seq::<char>::empty());
            assert(digits_val(Seq::<char>::empty()) == 0);
            assert(digits_val(p) == digits_val(p.drop_last()) * 10 + digit_val(p.last()));
            assert(p.last() == p[0]);
            assert(digit_val(p[0]) == n / 10);
            assert(n / 10 >= 1);
            assert(p[0] != '0') by {
                assert(digit_val('0') == 0);
            }
        }
    }
}

/// A digit string with no leading zero is the canonical rendering of its
/// own value.
pub proof fn lemma_digits_canonical(g: Seq<char>)
    requires
        all_digits(g),
        g.len() >= 1,
        g.len() > 1 ==> g[0] != '0',
    ensures
        decimal_chars(digits_val(g)) == g,
    decreases g.len(),
{
    lemma_digits_val_nonneg(g);
    if g.len() == 1 {
        let d = digit_val(g[0]);
        assert(digits_val(g) == digits_val(g.drop_last()) * 10 + d);
        assert(g.drop_last() =~= Seq::<char>::empty());
        assert(digits_val(g) == d);
        assert(decimal_chars(d) =~= seq![digit_char(d)]);
        lemma_digit_char_inverse(g[0]);
        assert(decimal_chars(digits_val(g)) =~= g);
    } else {
        let p = g.drop_last();
        assert(all_digits(p)) by {
            assert(forall|k: int| 0 <= k < p.len() ==> p[k] == g[k]);
        }
        assert(p[0] == g[0]);
        lemma_digits_canonical(p);
        lemma_digits_val_nonneg(p);
        let v = digits_val(g);
        let d = digit_val(g.last());
        assert(v == digits_val(p) * 10 + d);
        assert(0 <= d <= 9);
        assert(digits_val(p) >= 1) by {
            if digits_val(p) == 0 {
                lemma_decimal_chars(0);
                assert(decimal_chars(0) =~= seq!['0']);
                assert(p[0] == '0');
            }
        }
        assert(v >= 10);
        assert(v / 10 == digits_val(p) && v % 10 == d) by {
            assert(v == digits_val(p) * 10 + d && 0 <= d < 10);
        }
        lemma_digit_char_inverse(g.last());
        assert(decimal_chars(v) =~= g);
    }
}

/// The digit character for a value in `0..=9`, as a one-character string.
fn digit_str(d: u16) -> (r: &'static str)
    requires
        d < 10,
    ensures
        r@ =~= seq![digit_char(d as int)],
{
    proof {
        reveal_strlit("0");
        reveal_strlit("1");
        reveal_strlit("2");
        reveal_strlit("3");
        reveal_strlit("4");
        reveal_strlit("5");
        reveal_strlit("6");
        reveal_strlit("7");
        reveal_strlit("8");
        reveal_strlit("9");
    }
    match d {
        0 => "0",
        1 => "1",
        2 => "2",
        3 => "3",
        4 => "4",
        5 => "5",
        6 => "6",
        7 => "7",
        8 => "8",
        _ => "9",
    }
}

/// Render a number as canonical decimal text: the body of a `/set` push.
pub fn format_u16(n: u16) -> (r: String)
    ensures
        r@ == decimal_chars(n as int),
    decreases n,
{
    if n < 10 {
        String::from_str(digit_str(n))
    } else {
        let mut s = format_u16(n / 10);
        s.append(digit_str(n % 10));
        proof {
            assert(decimal_chars(n as int / 10).push(digit_char(n as int % 10)) =~= decimal_chars(
                n as int / 10,
            ) + seq![digit_char(n as int % 10)]);
        }
        s
    }
}

/// Parse decimal text as the board echoes it: digits only, value at most
/// `u16::MAX`. Leading zeros are accepted; sign or any other character is
/// not.
pub fn parse_u16(s: &str) -> (r: Option<u16>)
    ensures
        match r {
            Some(v) => s@.len() > 0 && all_digits(s@) && digits_val(s@) == v as int,
            None => s@.len() == 0 || !all_digits(s@) || digits_val(s@) > u16::MAX,
        },
{
    let n = s.unicode_len();
    if n == 0 {
        return None;
    }
    let mut acc: u32 = 0;
    let mut i: usize = 0;
    while i < n
        invariant
            0 < n == s@.len(),
            i <= n,
            all_digits(s@.take(i as int)),
            acc as int == digits_val(s@.take(i as int)),
            acc <= 65535,
        decreases n - i,
    {
        let c = s.get_char(i);
        let u = c as u32;
        if u < 48 || u > 57 {
            proof {
                assert(!is_digit(s@[i as int]));
            }
            return None;
        }
        let d = u - 48;
        let next: u32 = acc * 10 + d;
        proof {
            let t = s@.take(i as int + 1);
            assert(t.drop_last() =~= s@.take(i as int));
            assert(t.last() == s@[i as int]);
        }
        if next > 65535 {
            proof {
                if all_digits(s@) {
                    lemma_digits_val_prefix(s@, i as int + 1);
                }
            }
            return None;
        }
        acc = next;
        i += 1;
    }
    proof {
        assert(s@.take(n as int) =~= s@);
    }
    Some(acc as u16)
}

/// Round trip of the wire encoding: the canonical rendering of any
/// bitmask parses back to the same value, so a `/set` echo equal to the
/// request means the board applied exactly the requested mask.
pub proof fn lemma_format_parse_roundtrip(n: u16)
    ensures
        all_digits(decimal_chars(n as int)),
        decimal_chars(n as int).len() > 0,
        digits_val(decimal_chars(n as int)) == n as int,
{
    lemma_decimal_chars(n as int);
}

} // verus!
