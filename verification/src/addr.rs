//! Panel and board addresses as plain values: a four-octet IPv4 address,
//! its canonical dotted-quad rendering, and a parser for the same form.
//! Network plumbing outside the library converts between this type and
//! its own socket addresses.

use vstd::prelude::*;
use crate::codec::all_digits;
use crate::codec::decimal_chars;
use crate::codec::digit_run_end;
use crate::codec::digits_val;
use crate::codec::format_u16;
use crate::codec::is_digit;
use crate::codec::digit_val;
use crate::codec::lemma_decimal_chars;
use crate::codec::lemma_digit_run_end;
use crate::codec::lemma_digit_run_end_exact;
use crate::codec::lemma_digits_canonical;
use crate::codec::lemma_digits_val_bound;
use crate::codec::lemma_digits_val_nonneg;

verus! {

/// An IPv4 address, one field per octet.
#[derive(Debug, Clone, Copy, PartialEq, Eq, Structural, Hash)]
pub struct Ipv4 {
    pub a: u8,
    pub b: u8,
    pub c: u8,
    pub d: u8,
}

/// The canonical dotted-quad rendering of an address.
pub open spec fn ipv4_chars(ip: Ipv4) -> Seq<char> {
    decimal_chars(ip.a as int) + seq!['.'] + decimal_chars(ip.b as int) + seq!['.']
        + decimal_chars(ip.c as int) + seq!['.'] + decimal_chars(ip.d as int)
}

/// A well-formed octet group: one to three digits, no leading zero, value
/// at most 255.
pub open spec fn octet_ok(g: Seq<char>) -> bool {
    &&& 1 <= g.len() <= 3
    &&& all_digits(g)
    &&& g.len() > 1 ==> g[0] != '0'
    &&& digits_val(g) <= 255
}

/// The parse of a dotted quad, by recursive descent: four octet groups,
/// each the longest digit run from its start, separated by single dots,
/// the last one ending the string.
pub open spec fn spec_parse_ipv4(s: Seq<char>) -> Option<Ipv4> {
    let e1 = digit_run_end(s, 0);
    let g1 = s.subrange(0, e1);
    if !(octet_ok(g1) && e1 < s.len() && s[e1] == '.') {
        None
    } else {
        let e2 = digit_run_end(s, e1 + 1);
        let g2 = s.subrange(e1 + 1, e2);
        if !(octet_ok(g2) && e2 < s.len() && s[e2] == '.') {
            None
        } else {
            let e3 = digit_run_end(s, e2 + 1);
            let g3 = s.subrange(e2 + 1, e3);
            if !(octet_ok(g3) && e3 < s.len() && s[e3] == '.') {
                None
            } else {
                let e4 = digit_run_end(s, e3 + 1);
                let g4 = s.subrange(e3 + 1, e4);
                if !(octet_ok(g4) && e4 == s.len()) {
                    None
                } else {
                    Some(
                        Ipv4 {
                            a: digits_val(g1) as u8,
                            b: digits_val(g2) as u8,
                            c: digits_val(g3) as u8,
                            d: digits_val(g4) as u8,
                        },
                    )
                }
            }
        }
    }
}

/// Render an address in its canonical dotted-quad form.
pub fn format_ipv4(ip: Ipv4) -> (r: String)
    ensures
        r@ == ipv4_chars(ip),
{
    proof {
        reveal_strlit(".");
    }
    let mut s = format_u16(ip.a as u16);
    s.append(".");
    let sb = format_u16(ip.b as u16);
    s.append(sb.as_str());
    s.append(".");
    let sc = format_u16(ip.c as u16);
    s.append(sc.as_str());
    s.append(".");
    let sd = format_u16(ip.d as u16);
    s.append(sd.as_str());
    proof {
        assert(s@ =~= ipv4_chars(ip));
    }
    s
}

/// Scan one octet group starting at `start`: the longest digit run, which
/// must be a well-formed octet. Returns its value and the index just past
/// it.
fn scan_octet(s: &str, start: usize) -> (r: Option<(u8, usize)>)
    requires
        start as int <= s@.len(),
    ensures
        ({
            let e = digit_run_end(s@, start as int);
            let g = s@.subrange(start as int, e);
            match r {
                Some(p) => octet_ok(g) && p.0 as int == digits_val(g) && p.1 as int == e
                    && start < p.1 <= s@.len(),
                None => !octet_ok(g),
            }
        }),
{
    let n = s.unicode_len();
    let mut e: usize = start;
    loop
        invariant
            start <= e <= n,
            n == s@.len(),
            start as int <= s@.len(),
            digit_run_end(s@, start as int) == digit_run_end(s@, e as int),
            forall|k: int| start <= k < e ==> is_digit(#[trigger] s@[k]),
        ensures
            start <= e <= n,
            n == s@.len(),
            e as int == digit_run_end(s@, start as int),
            forall|k: int| start <= k < e ==> is_digit(#[trigger] s@[k]),
        decreases n - e,
    {
        if e >= n {
            break;
        }
        let u = s.get_char(e) as u32;
        if u < 48 || u > 57 {
            proof {
                assert(!is_digit(s@[e as int]));
            }
            break;
        }
        proof {
            assert(is_digit(s@[e as int]));
        }
        e += 1;
    }
    let ghost g = s@.subrange(start as int, e as int);
    proof {
        assert(all_digits(g)) by {
            assert(forall|k: int| 0 <= k < g.len() ==> g[k] == s@[start + k]);
        }
        assert(g.len() == e - start);
    }
    let len = e - start;
    if len == 0 || len > 3 {
        return None;
    }
    if len > 1 && s.get_char(start) == '0' {
        proof {
            assert(g[0] == s@[start as int]);
        }
        return None;
    }
    let mut acc: u32 = 0;
    let mut i: usize = start;
    while i < e
        invariant
            start <= i <= e <= s@.len(),
            e - start <= 3,
            g == s@.subrange(start as int, e as int),
            forall|k: int| start <= k < e ==> is_digit(#[trigger] s@[k]),
            acc as int == digits_val(s@.subrange(start as int, i as int)),
            acc <= 999,
        decreases e - i,
    {
        let c = s.get_char(i);
        let d = c as u32 - 48;
        proof {
            let p = s@.subrange(start as int, i as int);
            let t = s@.subrange(start as int, i as int + 1);
            assert(t.drop_last() =~= p);
            assert(t.last() == s@[i as int]);
            assert(all_digits(p)) by {
                assert(forall|k: int| 0 <= k < p.len() ==> p[k] == s@[start + k]);
            }
            lemma_digits_val_bound(p);
            assert(p.len() <= 2);
            assert(acc <= 99);
            assert(0 <= digit_val(t.last()) <= 9);
        }
        acc = acc * 10 + d;
        i += 1;
    }
    proof {
        assert(s@.subrange(start as int, i as int) == g);
        lemma_digits_val_nonneg(g);
    }
    if acc > 255 {
        return None;
    }
    Some((acc as u8, e))
}

/// Parse a dotted-quad address; `Some` exactly on the canonical renderings
/// accepted by `spec_parse_ipv4`.
pub fn parse_ipv4(s: &str) -> (r: Option<Ipv4>)
    ensures
        r == spec_parse_ipv4(s@),
{
    let n = s.unicode_len();
    let first = match scan_octet(s, 0) {
        Some(p) => p,
        None => {
            return None;
        },
    };
    if first.1 >= n || s.get_char(first.1) != '.' {
        return None;
    }
    let second = match scan_octet(s, first.1 + 1) {
        Some(p) => p,
        None => {
            return None;
        },
    };
    if second.1 >= n || s.get_char(second.1) != '.' {
        return None;
    }
    let third = match scan_octet(s, second.1 + 1) {
        Some(p) => p,
        None => {
            return None;
        },
    };
    if third.1 >= n || s.get_char(third.1) != '.' {
        return None;
    }
    let fourth = match scan_octet(s, third.1 + 1) {
        Some(p) => p,
        None => {
            return None;
        },
    };
    if fourth.1 != n {
        return None;
    }
    Some(Ipv4 { a: first.0, b: second.0, c: third.0, d: fourth.0 })
}

/// One octet group of a rendered address, seen from inside the whole
/// string: the digit run starting at `start` ends exactly at the group's
/// end, and the group is a well-formed octet denoting the octet value.
proof fn lemma_rendered_octet(s: Seq<char>, start: int, v: int)
    requires
        0 <= v <= 255,
        0 <= start,
        start + decimal_chars(v).len() <= s.len(),
        s.subrange(start, start + decimal_chars(v).len() as int) == decimal_chars(v),
        start + decimal_chars(v).len() == s.len() || !is_digit(
            s[start + decimal_chars(v).len()],
        ),
    ensures
        digit_run_end(s, start) == start + decimal_chars(v).len(),
        octet_ok(s.subrange(start, start + decimal_chars(v).len() as int)),
        digits_val(s.subrange(start, start + decimal_chars(v).len() as int)) == v,
{
    lemma_decimal_chars(v);
    let g = decimal_chars(v);
    let e = start + g.len();
    assert(forall|k: int| start <= k < e ==> s[k] == g[k - start]);
    lemma_digit_run_end_exact(s, start, e);
}

/// Round trip: the canonical rendering of any address parses back to
/// exactly that address.
pub proof fn lemma_ipv4_roundtrip(ip: Ipv4)
    ensures
        spec_parse_ipv4(ipv4_chars(ip)) == Some(ip),
{
    let ga = decimal_chars(ip.a as int);
    let gb = decimal_chars(ip.b as int);
    let gc = decimal_chars(ip.c as int);
    let gd = decimal_chars(ip.d as int);
    lemma_decimal_chars(ip.a as int);
    lemma_decimal_chars(ip.b as int);
    lemma_decimal_chars(ip.c as int);
    lemma_decimal_chars(ip.d as int);
    let s = ipv4_chars(ip);
    let e1 = ga.len() as int;
    let e2 = e1 + 1 + gb.len();
    let e3 = e2 + 1 + gc.len();
    let e4 = e3 + 1 + gd.len();
    assert(s.len() == e4);
    assert(s[e1] == '.' && s[e2] == '.' && s[e3] == '.');
    assert(!is_digit('.'));
    assert(s.subrange(0, e1) =~= ga);
    assert(s.subrange(e1 + 1, e2) =~= gb);
    assert(s.subrange(e2 + 1, e3) =~= gc);
    assert(s.subrange(e3 + 1, e4) =~= gd);
    lemma_rendered_octet(s, 0, ip.a as int);
    lemma_rendered_octet(s, e1 + 1, ip.b as int);
    lemma_rendered_octet(s, e2 + 1, ip.c as int);
    lemma_rendered_octet(s, e3 + 1, ip.d as int);
}

/// The parser accepts nothing but canonical renderings: a parsed string
/// is the rendering of the address it yielded.
pub proof fn lemma_parse_canonical(s: Seq<char>, ip: Ipv4)
    requires
        spec_parse_ipv4(s) == Some(ip),
    ensures
        s == ipv4_chars(ip),
{
    lemma_digit_run_end(s, 0);
    let e1 = digit_run_end(s, 0);
    let g1 = s.subrange(0, e1);
    lemma_digit_run_end(s, e1 + 1);
    let e2 = digit_run_end(s, e1 + 1);
    let g2 = s.subrange(e1 + 1, e2);
    lemma_digit_run_end(s, e2 + 1);
    let e3 = digit_run_end(s, e2 + 1);
    let g3 = s.subrange(e2 + 1, e3);
    lemma_digit_run_end(s, e3 + 1);
    let e4 = digit_run_end(s, e3 + 1);
    let g4 = s.subrange(e3 + 1, e4);
    lemma_digits_val_nonneg(g1);
    lemma_digits_val_nonneg(g2);
    lemma_digits_val_nonneg(g3);
    lemma_digits_val_nonneg(g4);
    lemma_digits_canonical(g1);
    lemma_digits_canonical(g2);
    lemma_digits_canonical(g3);
    lemma_digits_canonical(g4);
    assert(ip.a as int == digits_val(g1));
    assert(ip.b as int == digits_val(g2));
    assert(ip.c as int == digits_val(g3));
    assert(ip.d as int == digits_val(g4));
    let t = g1 + seq!['.'] + g2 + seq!['.'] + g3 + seq!['.'] + g4;
    assert(ipv4_chars(ip) == t);
    assert(t.len() == e4);
    assert forall|i: int| 0 <= i < s.len() implies s[i] == t[i] by {
        if i < e1 {
            assert(s[i] == g1[i]);
        } else if i == e1 {
            assert(s[i] == '.');
        } else if i < e2 {
            assert(s[i] == g2[i - (e1 + 1)]);
        } else if i == e2 {
            assert(s[i] == '.');
        } else if i < e3 {
            assert(s[i] == g3[i - (e2 + 1)]);
        } else if i == e3 {
            assert(s[i] == '.');
        } else {
            assert(s[i] == g4[i - (e3 + 1)]);
        }
    }
    assert(s =~= t);
}

} // verus!
