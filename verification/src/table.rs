//! The shared relay table: one `Item` per physical relay slot, plus the
//! table's well-formedness invariant and the bitmask encoding pushed to
//! the board.

use vstd::prelude::*;

verus! {

/// Largest relay id the bitmask encoding supports: bit `id - 1` of a
/// sixteen-bit mask.
pub const MAX_RELAY_ID: u32 = 16;

/// Size of the table a fresh deployment starts with.
pub const DEFAULT_RELAY_COUNT: u32 = 10;

/// Label of an inactive relay.
pub open spec fn sentinel_name() -> Seq<char> {
    seq!['-']
}

/// Address of an unassigned relay.
pub open spec fn sentinel_ipv4() -> Seq<char> {
    seq!['-', '.', '-', '.', '-', '.', '-']
}

/// One physical relay/panel slot.
#[derive(Debug, Clone, PartialEq)]
pub struct Item {
    /// Stable identifier, `1..=MAX_RELAY_ID`; bit index `id - 1`.
    pub id: u32,
    /// Display label; `"-"` while the relay is inactive.
    pub name: String,
    /// Assigned panel address; `"-.-.-.-"` while unassigned.
    pub ipv4: String,
    /// Wall-clock timestamp (milliseconds) of the last accepted mutation.
    pub last_updated: u64,
    /// On/off state of the relay.
    pub state: bool,
}

/// The shared table of relay items.
#[derive(Debug, Clone, PartialEq)]
pub struct States {
    pub relays: Vec<Item>,
}

impl View for States {
    type V = Seq<Item>;

    open spec fn view(&self) -> Seq<Item> {
        self.relays@
    }
}

/// There is an item with this id somewhere in the table.
pub open spec fn has_id(s: Seq<Item>, id: u32) -> bool {
    exists|i: int| 0 <= i < s.len() && s[i].id == id
}

/// The index of the item with this id (meaningful only when `has_id` holds
/// and ids are unique).
pub open spec fn idx_of(s: Seq<Item>, id: u32) -> int {
    choose|i: int| 0 <= i < s.len() && s[i].id == id
}

/// Table well-formedness: every id lies in `1..=MAX_RELAY_ID` and ids are
/// pairwise distinct, so each id denotes one bit of the mask and at most
/// one slot.
pub open spec fn wf(s: Seq<Item>) -> bool {
    &&& forall|i: int| 0 <= i < s.len() ==> 1 <= #[trigger] s[i].id <= MAX_RELAY_ID
    &&& forall|i: int, j: int|
        #![trigger s[i].id, s[j].id]
        0 <= i < j < s.len() ==> s[i].id != s[j].id
}

/// When the id is present, `idx_of` is a valid index holding it.
pub proof fn lemma_idx_of(s: Seq<Item>, id: u32)
    requires
        has_id(s, id),
    ensures
        0 <= idx_of(s, id) < s.len(),
        s[idx_of(s, id)].id == id,
{
}

/// With unique ids, every position holding this id is the chosen one.
pub proof fn lemma_idx_of_unique(s: Seq<Item>, id: u32, i: int)
    requires
        wf(s),
        0 <= i < s.len(),
        s[i].id == id,
    ensures
        idx_of(s, id) == i,
{
    lemma_idx_of(s, id);
    let j = idx_of(s, id);
    if i < j {
        assert(s[i].id != s[j].id);
    } else if j < i {
        assert(s[j].id != s[i].id);
    }
}

impl Item {
    /// An exact copy; unlike a derived clone, its contract says so.
    pub fn duplicate(&self) -> (r: Item)
        ensures
            r == *self,
    {
        Item {
            id: self.id,
            name: self.name.clone(),
            ipv4: self.ipv4.clone(),
            last_updated: self.last_updated,
            state: self.state,
        }
    }
}

impl States {
    /// An exact copy of the whole table.
    pub fn duplicate(&self) -> (r: States)
        ensures
            r@ == self@,
    {
        let mut relays: Vec<Item> = Vec::new();
        let n = self.relays.len();
        let mut i: usize = 0;
        while i < n
            invariant
                i <= n,
                n == self.relays.len(),
                relays@.len() == i as int,
                forall|k: int| 0 <= k < i ==> relays@[k] == self.relays@[k],
            decreases n - i,
        {
            relays.push(self.relays[i].duplicate());
            i += 1;
        }
        let r = States { relays };
        proof {
            assert(r.relays@ =~= self.relays@);
        }
        r
    }

    /// Executable check of the table invariant, so unverified callers can
    /// establish `wf` before handing a loaded table to the library.
    pub fn is_wf(&self) -> (r: bool)
        ensures
            r == wf(self@),
    {
        let n = self.relays.len();
        let mut i: usize = 0;
        while i < n
            invariant
                i <= n,
                n == self.relays.len(),
                forall|k: int| 0 <= k < i ==> 1 <= #[trigger] self.relays@[k].id <= MAX_RELAY_ID,
                forall|k: int, l: int|
                    #![trigger self.relays@[k].id, self.relays@[l].id]
                    0 <= k < l < i ==> self.relays@[k].id != self.relays@[l].id,
            decreases n - i,
        {
            let it_id = self.relays[i].id;
            if it_id < 1 || it_id > MAX_RELAY_ID {
                return false;
            }
            let mut j: usize = 0;
            while j < i
                invariant
                    j <= i < n,
                    n == self.relays.len(),
                    it_id == self.relays@[i as int].id,
                    forall|k: int| 0 <= k < j ==> self.relays@[k].id != it_id,
                decreases i - j,
            {
                if self.relays[j].id == it_id {
                    return false;
                }
                j += 1;
            }
            i += 1;
        }
        true
    }
}

/// The table a fresh deployment starts with, when no persisted state
/// exists: `count` relays with ids `1..=count`, sentinel labels and
/// addresses, all off, stamped with the current time.
pub fn default_table(count: u32, now: u64) -> (r: States)
    requires
        1 <= count <= MAX_RELAY_ID,
    ensures
        wf(r@),
        r@.len() == count as int,
        forall|i: int|
            0 <= i < count as int ==> {
                let it = #[trigger] r@[i];
                &&& it.id == i + 1
                &&& it.name@ == sentinel_name()
                &&& it.ipv4@ == sentinel_ipv4()
                &&& it.last_updated == now
                &&& !it.state
            },
{
    let mut relays: Vec<Item> = Vec::new();
    let mut id: u32 = 1;
    while id <= count
        invariant
            1 <= id <= count + 1,
            count <= MAX_RELAY_ID,
            relays@.len() == id - 1,
            forall|i: int|
                0 <= i < id - 1 ==> {
                    let it = #[trigger] relays@[i];
                    &&& it.id == i + 1
                    &&& it.name@ == sentinel_name()
                    &&& it.ipv4@ == sentinel_ipv4()
                    &&& it.last_updated == now
                    &&& !it.state
                },
        decreases count + 1 - id,
    {
        proof {
            reveal_strlit("-");
            reveal_strlit("-.-.-.-");
            assert("-"@ =~= sentinel_name());
            assert("-.-.-.-"@ =~= sentinel_ipv4());
        }
        relays.push(
            Item {
                id,
                name: String::from_str("-"),
                ipv4: String::from_str("-.-.-.-"),
                last_updated: now,
                state: false,
            },
        );
        id += 1;
    }
    States { relays }
}

/// The bit the item contributes to the mask: bit `id - 1` when on.
pub open spec fn mask_of(it: Item) -> u16 {
    if it.state && 1 <= it.id <= MAX_RELAY_ID {
        1u16 << ((it.id - 1) as u16)
    } else {
        0u16
    }
}

/// The table's bitmask: the bitwise or of every item's contribution.
pub open spec fn spec_bitmask(s: Seq<Item>) -> u16
    decreases s.len(),
{
    if s.len() == 0 {
        0u16
    } else {
        spec_bitmask(s.drop_last()) | mask_of(s.last())
    }
}

/// Compute the bitmask of the table: bit `id - 1` is set iff the item with
/// that id is on. Derived on every push, never stored.
pub fn bitmask(table: &States) -> (m: u16)
    requires
        wf(table@),
    ensures
        m == spec_bitmask(table@),
{
    let mut acc: u16 = 0;
    let n = table.relays.len();
    let mut i: usize = 0;
    while i < n
        invariant
            i <= n,
            n == table.relays.len(),
            wf(table@),
            acc == spec_bitmask(table@.take(i as int)),
        decreases n - i,
    {
        let it = &table.relays[i];
        proof {
            assert(table@.take(i as int + 1).drop_last() =~= table@.take(i as int));
            assert(table@.take(i as int + 1).last() == table@[i as int]);
        }
        if it.state {
            acc = acc | (1u16 << ((it.id - 1) as u16));
        } else {
            proof {
                assert(acc | 0u16 == acc) by (bit_vector);
            }
        }
        i += 1;
    }
    proof {
        assert(table@.take(n as int) =~= table@);
    }
    acc
}

/// Bit `j` of the or of two masks is set iff it is set in either.
proof fn lemma_or_bit(a: u16, b: u16, j: u16)
    by (bit_vector)
    requires
        j < 16,
    ensures
        ((a | b) >> j) & 1u16 == 1u16 <==> ((a >> j) & 1u16 == 1u16) || ((b >> j) & 1u16
            == 1u16),
{
}

/// Bit `j` of `1 << k` is set iff `j == k`.
proof fn lemma_shl_bit(k: u16, j: u16)
    by (bit_vector)
    requires
        j < 16,
        k < 16,
    ensures
        ((1u16 << k) >> j) & 1u16 == 1u16 <==> j == k,
{
}

/// No bit of zero is set.
proof fn lemma_zero_bit(j: u16)
    by (bit_vector)
    requires
        j < 16,
    ensures
        (0u16 >> j) & 1u16 != 1u16,
{
}

/// The bitmask sets exactly the bits of items whose state is on: bit `j`
/// of `spec_bitmask(s)` is set iff some item has id `j + 1` and is on.
pub proof fn lemma_bitmask_bits(s: Seq<Item>, j: u16)
    requires
        wf(s),
        j < 16,
    ensures
        (spec_bitmask(s) >> j) & 1u16 == 1u16 <==> exists|i: int|
            0 <= i < s.len() && (#[trigger] s[i].id) == j + 1 && s[i].state,
    decreases s.len(),
{
    if s.len() == 0 {
        lemma_zero_bit(j);
    } else {
        let prefix = s.drop_last();
        assert(wf(prefix));
        lemma_bitmask_bits(prefix, j);
        lemma_or_bit(spec_bitmask(prefix), mask_of(s.last()), j);
        let last = s.last();
        if last.state {
            lemma_shl_bit((last.id - 1) as u16, j);
        } else {
            lemma_zero_bit(j);
        }
        assert forall|i: int| 0 <= i < prefix.len() implies prefix[i] == s[i] by {}
        if (spec_bitmask(s) >> j) & 1u16 == 1u16 {
            if (spec_bitmask(prefix) >> j) & 1u16 == 1u16 {
                let i = choose|i: int|
                    0 <= i < prefix.len() && (#[trigger] prefix[i].id) == j + 1
                        && prefix[i].state;
                assert(s[i].id == j + 1 && s[i].state);
            } else {
                assert(s[s.len() - 1].id == j + 1 && s[s.len() - 1].state);
            }
        }
        if exists|i: int| 0 <= i < s.len() && (#[trigger] s[i].id) == j + 1 && s[i].state {
            let i = choose|i: int|
                0 <= i < s.len() && (#[trigger] s[i].id) == j + 1 && s[i].state;
            if i < s.len() - 1 {
                assert(prefix[i].id == j + 1 && prefix[i].state);
            }
        }
    }
}

} // verus!
