//! The mutation engine: the only writer of the relay table. It accepts
//! or rejects a client mutation under the debounce policy, rewrites the
//! matching table entry, and hands back the side effects the caller must
//! perform: persist the new table, publish the change event, push the
//! new bitmask to the board. The caller runs those effects off the
//! library; the engine guarantees the snapshot it hands out for
//! persistence is exactly the table it now holds.

use vstd::prelude::*;
use crate::addr::Ipv4;
use crate::addr::format_ipv4;
use crate::addr::ipv4_chars;
use crate::events::ServerEvent;
use crate::table::Item;
use crate::table::States;
use crate::table::bitmask;
use crate::table::has_id;
use crate::table::idx_of;
use crate::table::lemma_idx_of_unique;
use crate::table::sentinel_ipv4;
use crate::table::sentinel_name;
use crate::table::spec_bitmask;
use crate::table::wf;

verus! {

/// Default debounce window: the least time that must pass after an
/// accepted mutation before the next one to the same id is applied.
pub const DEBOUNCE_WINDOW_MS: u64 = 2000;

/// What became of a mutation request: applied (with the entry as it now
/// stands), coalesced away by the debounce window, or addressed to an id
/// the table does not hold.
#[derive(Debug, Clone, PartialEq)]
pub enum Outcome {
    Applied(Item),
    Debounced,
    NotFound,
}

/// The side effects an accepted mutation obliges the caller to run:
/// persist this exact snapshot, publish this event, push this bitmask.
/// All `None` when nothing was accepted.
#[derive(Debug)]
pub struct Effects {
    pub persist: Option<States>,
    pub event: Option<ServerEvent>,
    pub push_mask: Option<u16>,
}

/// No side effects owed.
pub open spec fn no_effects(f: Effects) -> bool {
    &&& f.persist is None
    &&& f.event is None
    &&& f.push_mask is None
}

/// The debounce test: the entry's last accepted mutation lies strictly
/// more than one window in the past. A clock that ran backwards (now
/// before the entry's timestamp) fails the test.
pub open spec fn accepts(entry: Item, now: u64, window: u64) -> bool {
    now >= entry.last_updated && now - entry.last_updated > window
}

/// How an accepted mutation rewrites the matching entry: state and
/// timestamp always follow the request; name and address follow it only
/// when the relay is switched on, and reset to the sentinels when it is
/// switched off, whatever the request carried.
pub open spec fn updated_from(entry: Item, cand: Item, now: u64, r: Item) -> bool {
    &&& r.id == entry.id
    &&& r.state == cand.state
    &&& r.last_updated == now
    &&& if cand.state {
        r.name@ == cand.name@ && r.ipv4@ == cand.ipv4@
    } else {
        r.name@ == sentinel_name() && r.ipv4@ == sentinel_ipv4()
    }
}

/// The engine: the table it owns and the debounce window it enforces.
#[derive(Debug)]
pub struct SyncEngine {
    pub table: States,
    pub debounce_ms: u64,
}

impl SyncEngine {
    pub fn new(table: States, debounce_ms: u64) -> (r: SyncEngine)
        requires
            wf(table@),
        ensures
            r.table@ == table@,
            r.debounce_ms == debounce_ms,
            wf(r.table@),
    {
        SyncEngine { table, debounce_ms }
    }

    /// Accept or reject one client mutation.
    ///
    /// Exactly one of the three outcomes holds: `NotFound` iff no entry
    /// has the candidate's id; `Debounced` iff the entry exists but its
    /// window has not elapsed (the table is untouched, no effects owed);
    /// `Applied` iff the window elapsed, in which case the one matching
    /// entry is rewritten as `updated_from` says, the persistence
    /// snapshot equals the new table, the event carries the new entry,
    /// and the mask is the new table's bitmask.
    pub fn apply_mutation(&mut self, candidate: &Item, now: u64) -> (r: (Outcome, Effects))
        requires
            wf(old(self).table@),
        ensures
            final(self).debounce_ms == old(self).debounce_ms,
            wf(final(self).table@),
            r.0 is NotFound <==> !has_id(old(self).table@, candidate.id),
            r.0 is NotFound ==> final(self).table@ == old(self).table@ && no_effects(r.1),
            r.0 is Debounced <==> has_id(old(self).table@, candidate.id) && !accepts(
                old(self).table@[idx_of(old(self).table@, candidate.id)],
                now,
                old(self).debounce_ms,
            ),
            r.0 is Debounced ==> final(self).table@ == old(self).table@ && no_effects(r.1),
            r.0 is Applied <==> has_id(old(self).table@, candidate.id) && accepts(
                old(self).table@[idx_of(old(self).table@, candidate.id)],
                now,
                old(self).debounce_ms,
            ),
            (r.0 matches Outcome::Applied(it) ==> ({
                let i = idx_of(old(self).table@, candidate.id);
                &&& updated_from(old(self).table@[i], *candidate, now, it)
                &&& final(self).table@ == old(self).table@.update(i, it)
                &&& (r.1.persist matches Some(t) && t@ == final(self).table@)
                &&& (r.1.event matches Some(ev) && ev.updated_item == it)
                &&& r.1.push_mask == Some(spec_bitmask(final(self).table@))
            })),
    {
        let ghost s0 = self.table@;
        let n = self.table.relays.len();
        let mut i: usize = 0;
        let mut found: Option<usize> = None;
        while i < n
            invariant
                i <= n,
                n == self.table.relays.len(),
                s0 == self.table@,
                match found {
                    Some(j) => j < i && s0[j as int].id == candidate.id,
                    None => forall|k: int| 0 <= k < i ==> (#[trigger] s0[k].id) != candidate.id,
                },
            decreases n - i,
        {
            if self.table.relays[i].id == candidate.id {
                found = Some(i);
            }
            i += 1;
        }
        match found {
            None => {
                proof {
                    assert(!has_id(s0, candidate.id));
                }
                (
                    Outcome::NotFound,
                    Effects { persist: None, event: None, push_mask: None },
                )
            },
            Some(j) => {
                proof {
                    assert(has_id(s0, candidate.id));
                    lemma_idx_of_unique(s0, candidate.id, j as int);
                }
                let entry_last = self.table.relays[j].last_updated;
                if now >= entry_last && now - entry_last > self.debounce_ms {
                    let name = if candidate.state {
                        candidate.name.clone()
                    } else {
                        String::from_str("-")
                    };
                    let ipv4 = if candidate.state {
                        candidate.ipv4.clone()
                    } else {
                        String::from_str("-.-.-.-")
                    };
                    proof {
                        reveal_strlit("-");
                        reveal_strlit("-.-.-.-");
                        assert("-"@ =~= sentinel_name());
                        assert("-.-.-.-"@ =~= sentinel_ipv4());
                    }
                    let entry_id = self.table.relays[j].id;
                    let it = Item {
                        id: entry_id,
                        name,
                        ipv4,
                        last_updated: now,
                        state: candidate.state,
                    };
                    self.table.relays.set(j, it.duplicate());
                    proof {
                        assert(wf(self.table@)) by {
                            assert(forall|k: int|
                                0 <= k < self.table@.len() ==> (#[trigger] self.table@[k].id)
                                    == s0[k].id);
                        }
                    }
                    let mask = bitmask(&self.table);
                    let snapshot = self.table.duplicate();
                    let ev = ServerEvent { updated_item: it.duplicate() };
                    (
                        Outcome::Applied(it),
                        Effects {
                            persist: Some(snapshot),
                            event: Some(ev),
                            push_mask: Some(mask),
                        },
                    )
                } else {
                    (
                        Outcome::Debounced,
                        Effects { persist: None, event: None, push_mask: None },
                    )
                }
            },
        }
    }

    /// Record the address a reconciliation scan attributed to a relay:
    /// the matching entry's address becomes the canonical rendering of
    /// `ip`, nothing else of it changes, and the caller owes the same
    /// persist and publish effects as for a mutation (but no push: the
    /// relay states did not change). Without a matching entry nothing
    /// happens.
    pub fn apply_panel_ip(&mut self, target_id: u32, ip: Ipv4) -> (r: (Option<Item>, Effects))
        requires
            wf(old(self).table@),
        ensures
            final(self).debounce_ms == old(self).debounce_ms,
            wf(final(self).table@),
            r.0 is None <==> !has_id(old(self).table@, target_id),
            r.0 is None ==> final(self).table@ == old(self).table@ && no_effects(r.1),
            (r.0 matches Some(it) ==> ({
                let i = idx_of(old(self).table@, target_id);
                let entry = old(self).table@[i];
                &&& it.id == entry.id
                &&& it.name@ == entry.name@
                &&& it.ipv4@ == ipv4_chars(ip)
                &&& it.last_updated == entry.last_updated
                &&& it.state == entry.state
                &&& final(self).table@ == old(self).table@.update(i, it)
                &&& (r.1.persist matches Some(t) && t@ == final(self).table@)
                &&& (r.1.event matches Some(ev) && ev.updated_item == it)
                &&& r.1.push_mask is None
            })),
    {
        let ghost s0 = self.table@;
        let n = self.table.relays.len();
        let mut i: usize = 0;
        let mut found: Option<usize> = None;
        while i < n
            invariant
                i <= n,
                n == self.table.relays.len(),
                s0 == self.table@,
                match found {
                    Some(j) => j < i && s0[j as int].id == target_id,
                    None => forall|k: int| 0 <= k < i ==> (#[trigger] s0[k].id) != target_id,
                },
            decreases n - i,
        {
            if self.table.relays[i].id == target_id {
                found = Some(i);
            }
            i += 1;
        }
        match found {
            None => {
                proof {
                    assert(!has_id(s0, target_id));
                }
                (None, Effects { persist: None, event: None, push_mask: None })
            },
            Some(j) => {
                proof {
                    assert(has_id(s0, target_id));
                    lemma_idx_of_unique(s0, target_id, j as int);
                }
                let entry = &self.table.relays[j];
                let it = Item {
                    id: entry.id,
                    name: entry.name.clone(),
                    ipv4: format_ipv4(ip),
                    last_updated: entry.last_updated,
                    state: entry.state,
                };
                self.table.relays.set(j, it.duplicate());
                proof {
                    assert(wf(self.table@)) by {
                        assert(forall|k: int|
                            0 <= k < self.table@.len() ==> (#[trigger] self.table@[k].id)
                                == s0[k].id);
                    }
                }
                let snapshot = self.table.duplicate();
                let ev = ServerEvent { updated_item: it.duplicate() };
                (
                    Some(it),
                    Effects { persist: Some(snapshot), event: Some(ev), push_mask: None },
                )
            },
        }
    }
}

/// The debounce law: when a mutation is accepted at time `t1`, any
/// second mutation to the same id at a time `t2` within the window
/// (`t2 - t1 <= window`, the clock not running backwards) is a no-op:
/// the engine reports `Debounced`, and in particular the entry keeps the
/// timestamp `t1` the first mutation wrote.
pub proof fn lemma_debounce_window(
    s0: Seq<Item>,
    it: Item,
    cand1: Item,
    cand2: Item,
    t1: u64,
    t2: u64,
    window: u64,
)
    requires
        wf(s0),
        has_id(s0, cand1.id),
        accepts(s0[idx_of(s0, cand1.id)], t1, window),
        updated_from(s0[idx_of(s0, cand1.id)], cand1, t1, it),
        cand2.id == cand1.id,
        t1 <= t2,
        t2 - t1 <= window,
    ensures
        ({
            let s1 = s0.update(idx_of(s0, cand1.id), it);
            &&& wf(s1)
            &&& has_id(s1, cand2.id)
            &&& !accepts(s1[idx_of(s1, cand2.id)], t2, window)
            &&& s1[idx_of(s1, cand2.id)].last_updated == t1
        }),
{
    let i = idx_of(s0, cand1.id);
    crate::table::lemma_idx_of(s0, cand1.id);
    let s1 = s0.update(i, it);
    assert(wf(s1)) by {
        assert(forall|k: int| 0 <= k < s1.len() ==> (#[trigger] s1[k].id) == s0[k].id);
    }
    assert(s1[i].id == cand2.id);
    assert(has_id(s1, cand2.id));
    lemma_idx_of_unique(s1, cand2.id, i);
    assert(s1[idx_of(s1, cand2.id)].last_updated == t1);
}

} // verus!
