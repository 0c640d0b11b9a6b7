//! Panel reconciliation policy. A scan of the subnet yields the panel
//! addresses that answered the discovery datagram; two snapshots taken
//! around the join window give the addresses that newly appeared. Only
//! an unambiguous result — exactly one new address — is attributed to
//! the relay that was just switched on; anything else is left alone.

use vstd::prelude::*;
use crate::addr::Ipv4;

verus! {

/// Whether the list holds this address.
pub fn contains_ip(v: &Vec<Ipv4>, x: Ipv4) -> (r: bool)
    ensures
        r == v@.contains(x),
{
    let n = v.len();
    let mut i: usize = 0;
    while i < n
        invariant
            i <= n,
            n == v@.len(),
            forall|k: int| 0 <= k < i ==> v@[k] != x,
        decreases n - i,
    {
        if v[i] == x {
            return true;
        }
        i += 1;
    }
    false
}

/// The distinct addresses of a reply list, each kept once: a scan
/// deduplicates the datagram sources by address.
pub fn dedup_ips(v: &Vec<Ipv4>) -> (r: Vec<Ipv4>)
    ensures
        r@.to_set() == v@.to_set(),
        r@.no_duplicates(),
{
    let n = v.len();
    let mut out: Vec<Ipv4> = Vec::new();
    let mut i: usize = 0;
    while i < n
        invariant
            i <= n,
            n == v@.len(),
            out@.to_set() == v@.take(i as int).to_set(),
            out@.no_duplicates(),
        decreases n - i,
    {
        let x = v[i];
        let ghost prev = out@;
        if !contains_ip(&out, x) {
            out.push(x);
            proof {
                assert(out@.no_duplicates()) by {
                    assert(forall|k: int| 0 <= k < prev.len() ==> out@[k] == prev[k]);
                    assert(out@[prev.len() as int] == x);
                    assert(forall|k: int| 0 <= k < prev.len() ==> prev[k] != x);
                }
            }
        }
        proof {
            assert(v@.take(i as int + 1) =~= v@.take(i as int).push(v@[i as int]));
            v@.take(i as int).lemma_push_to_set_commute(v@[i as int]);
            if prev.contains(x) {
                assert(prev.to_set().contains(x));
                assert(out@.to_set() =~= v@.take(i as int + 1).to_set());
            } else {
                prev.lemma_push_to_set_commute(x);
                assert(out@.to_set() =~= v@.take(i as int + 1).to_set());
            }
        }
        i += 1;
    }
    proof {
        assert(v@.take(n as int) =~= v@);
    }
    out
}

/// The addresses present in the second snapshot but not the first: the
/// devices that joined the network between the two scans.
pub fn new_devices(first: &Vec<Ipv4>, second: &Vec<Ipv4>) -> (r: Vec<Ipv4>)
    ensures
        r@.to_set() == second@.to_set().difference(first@.to_set()),
        r@.no_duplicates(),
{
    let n = second.len();
    let mut out: Vec<Ipv4> = Vec::new();
    let mut i: usize = 0;
    while i < n
        invariant
            i <= n,
            n == second@.len(),
            out@.to_set() == second@.take(i as int).to_set().difference(first@.to_set()),
            out@.no_duplicates(),
        decreases n - i,
    {
        let x = second[i];
        let ghost prev = out@;
        let in_first = contains_ip(first, x);
        if !in_first && !contains_ip(&out, x) {
            out.push(x);
            proof {
                assert(out@.no_duplicates()) by {
                    assert(forall|k: int| 0 <= k < prev.len() ==> out@[k] == prev[k]);
                    assert(out@[prev.len() as int] == x);
                    assert(forall|k: int| 0 <= k < prev.len() ==> prev[k] != x);
                }
            }
        }
        proof {
            assert(second@.take(i as int + 1) =~= second@.take(i as int).push(
                second@[i as int],
            ));
            second@.take(i as int).lemma_push_to_set_commute(second@[i as int]);
            if in_first {
                assert(first@.to_set().contains(x));
            } else if prev.contains(x) {
                assert(prev.to_set().contains(x));
            } else {
                prev.lemma_push_to_set_commute(x);
            }
            assert(out@.to_set() =~= second@.take(i as int + 1).to_set().difference(
                first@.to_set(),
            ));
        }
        i += 1;
    }
    proof {
        assert(second@.take(n as int) =~= second@);
    }
    out
}

/// The reconciliation decision: the address to attribute to the relay,
/// or nothing. `Some` exactly when one single new address appeared
/// between the snapshots; zero or several new devices are ambiguous and
/// yield no assignment.
pub fn reconcile_target(first: &Vec<Ipv4>, second: &Vec<Ipv4>) -> (r: Option<Ipv4>)
    ensures
        ({
            let d = second@.to_set().difference(first@.to_set());
            match r {
                Some(ip) => d.len() == 1 && d.contains(ip),
                None => d.len() != 1,
            }
        }),
{
    let nd = new_devices(first, second);
    proof {
        nd@.unique_seq_to_set();
    }
    if nd.len() == 1 {
        proof {
            assert(nd@.contains(nd@[0]));
            assert(nd@.to_set().contains(nd@[0]));
        }
        Some(nd[0])
    } else {
        None
    }
}

} // verus!
