//! The compute half of the board transport: the probe plan for finding
//! the board on its /24 subnet, the request targets of the wire
//! protocol, the push body, and the first-success selection rule of the
//! discovery race. The sockets themselves live outside the library.

use vstd::prelude::*;
use crate::addr::Ipv4;
use crate::addr::format_ipv4;
use crate::addr::ipv4_chars;
use crate::codec::decimal_chars;
use crate::codec::format_u16;
use crate::table::States;
use crate::table::bitmask;
use crate::table::spec_bitmask;
use crate::table::wf;

verus! {

/// Every host address of the /24 subnet `a.b.c`, in order: the probe
/// targets `a.b.c.1` through `a.b.c.254`.
pub fn probe_candidates(a: u8, b: u8, c: u8) -> (r: Vec<Ipv4>)
    ensures
        r@.len() == 254,
        forall|i: int|
            0 <= i < 254 ==> (#[trigger] r@[i]) == (Ipv4 { a, b, c, d: (i + 1) as u8 }),
{
    let mut out: Vec<Ipv4> = Vec::new();
    let mut d: u8 = 1;
    while d <= 254
        invariant
            1 <= d,
            d as int <= 255,
            out@.len() == d - 1,
            forall|i: int|
                0 <= i < d - 1 ==> (#[trigger] out@[i]) == (Ipv4 { a, b, c, d: (i + 1) as u8 }),
        decreases 255 - d,
    {
        out.push(Ipv4 { a, b, c, d });
        if d == 254 {
            return out;
        }
        d += 1;
    }
    out
}

/// The health-check target of a candidate host.
pub fn probe_url(ip: Ipv4) -> (r: String)
    ensures
        r@ == "http://"@ + ipv4_chars(ip) + "/esp"@,
{
    let mut s = String::from_str("http://");
    let addr_text = format_ipv4(ip);
    s.append(addr_text.as_str());
    s.append("/esp");
    proof {
        assert(s@ =~= "http://"@ + ipv4_chars(ip) + "/esp"@);
    }
    s
}

/// The relay-state target of the registered board.
pub fn set_url(ip: Ipv4) -> (r: String)
    ensures
        r@ == "http://"@ + ipv4_chars(ip) + "/set"@,
{
    let mut s = String::from_str("http://");
    let addr_text = format_ipv4(ip);
    s.append(addr_text.as_str());
    s.append("/set");
    proof {
        assert(s@ =~= "http://"@ + ipv4_chars(ip) + "/set"@);
    }
    s
}

/// The datagram that asks panels to announce themselves.
pub fn discovery_datagram() -> (r: &'static str)
    ensures
        r@ == "WhereAreYou.01"@,
{
    "WhereAreYou.01"
}

/// Where the discovery datagram is sent: the subnet's broadcast address
/// and the panels' discovery port.
pub fn broadcast_address(a: u8, b: u8, c: u8) -> (r: String)
    ensures
        r@ == ipv4_chars(Ipv4 { a, b, c, d: 255 }) + ":991"@,
{
    let mut s = format_ipv4(Ipv4 { a, b, c, d: 255 });
    s.append(":991");
    s
}

/// What one push carries: the table's bitmask and its wire body, the
/// canonical decimal rendering of that mask. The board echoes the body
/// of the mask it applied; an echo equal to `r.0` means full
/// application.
pub fn prepare_push(table: &States) -> (r: (u16, String))
    requires
        wf(table@),
    ensures
        r.0 == spec_bitmask(table@),
        r.1@ == decimal_chars(r.0 as int),
{
    let mask = bitmask(table);
    let body = format_u16(mask);
    (mask, body)
}

/// No partial application goes unnoticed: the push body denotes the
/// requested mask, so an echo textually equal to the body parses back
/// to exactly that mask — if the echoed value equals the request, the
/// board applied every relay bit as asked.
pub proof fn lemma_push_echo_confirms(t: Seq<crate::table::Item>)
    requires
        wf(t),
    ensures
        ({
            let body = decimal_chars(spec_bitmask(t) as int);
            &&& body.len() > 0
            &&& crate::codec::all_digits(body)
            &&& crate::codec::digits_val(body) == spec_bitmask(t) as int
        }),
{
    crate::codec::lemma_format_parse_roundtrip(spec_bitmask(t));
}

/// The first probe answer in arrival order, if any probe succeeded.
pub open spec fn first_some(s: Seq<Option<Ipv4>>) -> Option<Ipv4>
    decreases s.len(),
{
    if s.len() == 0 {
        None
    } else if s[0] is Some {
        s[0]
    } else {
        first_some(s.drop_first())
    }
}

/// The discovery race is first-one-wins: of the probe results in the
/// order they arrived, the first success names the board.
pub fn first_success(results: &Vec<Option<Ipv4>>) -> (r: Option<Ipv4>)
    ensures
        r == first_some(results@),
{
    let n = results.len();
    let mut i: usize = 0;
    proof {
        assert(results@.skip(0) =~= results@);
    }
    while i < n
        invariant
            i <= n,
            n == results@.len(),
            first_some(results@) == first_some(results@.skip(i as int)),
        decreases n - i,
    {
        proof {
            assert(results@.skip(i as int).drop_first() =~= results@.skip(i as int + 1));
            assert(results@.skip(i as int)[0] == results@[i as int]);
        }
        match results[i] {
            Some(ip) => {
                return Some(ip);
            },
            None => {},
        }
        i += 1;
    }
    proof {
        assert(results@.skip(n as int) =~= Seq::<Option<Ipv4>>::empty());
    }
    None
}

} // verus!
