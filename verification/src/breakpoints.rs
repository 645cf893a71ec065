//! The table of breakpoints that a session keeps.
//!
//! The table maps each requested address to `None` while the breakpoint is
//! pending and to the installed `Breakpoint`, which holds the byte that the
//! trap replaced, while it is in the image of the running process. It keeps its
//! entries in the order in which they were asked for, so that they can be
//! installed one after the other.

use crate::debugger::Breakpoint;
use vstd::prelude::*;

verus! {

/// One entry of the table.
#[derive(Clone, Copy, Debug, PartialEq, Eq)]
pub struct Slot {
    pub addr: usize,
    pub state: Option<Breakpoint>,
}

/// The index of the first entry for `addr`, or the length of `slots` if there
/// is none.
pub open spec fn position(slots: Seq<Slot>, addr: usize) -> int
    decreases slots.len(),
{
    if slots.len() == 0 {
        0
    } else if slots[0].addr == addr {
        0
    } else {
        1 + position(slots.drop_first(), addr)
    }
}

/// Whether `slots` has an entry for `addr`.
pub open spec fn listed(slots: Seq<Slot>, addr: usize) -> bool {
    position(slots, addr) < slots.len()
}

/// The breakpoint installed at `addr`, if one is.
pub open spec fn installed_at(slots: Seq<Slot>, addr: usize) -> Option<Breakpoint> {
    if listed(slots, addr) {
        slots[position(slots, addr)].state
    } else {
        None
    }
}

/// No address has two entries.
pub open spec fn distinct(slots: Seq<Slot>) -> bool {
    forall|i: int, j: int|
        0 <= i < j < slots.len() ==> (#[trigger] slots[i]).addr != (#[trigger] slots[j]).addr
}

/// No address has two entries, and an installed breakpoint sits at the address
/// of its entry.
pub open spec fn well_formed(slots: Seq<Slot>) -> bool {
    &&& distinct(slots)
    &&& forall|i: int|
        0 <= i < slots.len() ==> ((#[trigger] slots[i]).state matches Some(b) ==> b.addr
            == slots[i].addr)
}

/// `slots` with a pending entry for `addr` added, unless it has an entry for it.
pub open spec fn inserted(slots: Seq<Slot>, addr: usize) -> Seq<Slot> {
    if listed(slots, addr) {
        slots
    } else {
        slots.push(Slot { addr, state: None })
    }
}

/// `slots` with the entry for `addr` set to installed, with `saved` as the byte
/// that the trap replaced, or to pending where `saved` is `None`. Nothing
/// changes if there is no entry for `addr`.
pub open spec fn recorded(slots: Seq<Slot>, addr: usize, saved: Option<u8>) -> Seq<Slot> {
    if listed(slots, addr) {
        slots.update(
            position(slots, addr),
            Slot {
                addr,
                state: match saved {
                    Some(orig_byte) => Some(Breakpoint { addr, orig_byte }),
                    None => None,
                },
            },
        )
    } else {
        slots
    }
}

/// `slots` with every entry pending.
pub open spec fn all_pending(slots: Seq<Slot>) -> Seq<Slot> {
    Seq::new(slots.len(), |i: int| Slot { addr: slots[i].addr, state: None })
}

/// The mapping from address to state that `slots` stands for.
pub open spec fn as_map(slots: Seq<Slot>) -> Map<usize, Option<Breakpoint>> {
    Map::new(|addr: usize| listed(slots, addr), |addr: usize| installed_at(slots, addr))
}

/// What `position` finds: the first entry for the address, if there is one.
pub proof fn lemma_position(slots: Seq<Slot>, addr: usize)
    ensures
        0 <= position(slots, addr) <= slots.len(),
        listed(slots, addr) ==> slots[position(slots, addr)].addr == addr,
        forall|i: int| 0 <= i < position(slots, addr) ==> (#[trigger] slots[i]).addr != addr,
    decreases slots.len(),
{
    if slots.len() > 0 && slots[0].addr != addr {
        let rest = slots.drop_first();
        lemma_position(rest, addr);
        assert forall|i: int| 0 <= i < position(slots, addr) implies (#[trigger] slots[i]).addr
            != addr by {
            if i > 0 {
                assert(slots[i] == rest[i - 1]);
            }
        }
    }
}

/// The first entry for an address is where `position` says.
pub proof fn lemma_position_is(slots: Seq<Slot>, addr: usize, index: int)
    requires
        0 <= index <= slots.len(),
        forall|i: int| 0 <= i < index ==> (#[trigger] slots[i]).addr != addr,
        index < slots.len() ==> slots[index].addr == addr,
    ensures
        position(slots, addr) == index,
{
    lemma_position(slots, addr);
    let p = position(slots, addr);
    if p < index {
        assert(slots[p].addr != addr);
    }
}

/// Where an address is after an entry was added at the end.
pub proof fn lemma_position_push(slots: Seq<Slot>, slot: Slot, addr: usize)
    ensures
        position(slots.push(slot), addr) == if listed(slots, addr) {
            position(slots, addr)
        } else if slot.addr == addr {
            slots.len() as int
        } else {
            (slots.len() + 1) as int
        },
{
    lemma_position(slots, addr);
    let longer = slots.push(slot);
    let index = if listed(slots, addr) {
        position(slots, addr)
    } else if slot.addr == addr {
        slots.len() as int
    } else {
        (slots.len() + 1) as int
    };
    assert forall|i: int| 0 <= i < index implies (#[trigger] longer[i]).addr != addr by {
        if i < slots.len() {
            assert(longer[i] == slots[i]);
        }
    }
    lemma_position_is(longer, addr, index);
}

/// Where an address is does not depend on the states of the entries.
pub proof fn lemma_position_by_addresses(a: Seq<Slot>, b: Seq<Slot>, addr: usize)
    requires
        a.len() == b.len(),
        forall|i: int| 0 <= i < a.len() ==> (#[trigger] a[i]).addr == b[i].addr,
    ensures
        position(a, addr) == position(b, addr),
        listed(a, addr) == listed(b, addr),
{
    lemma_position(a, addr);
    let index = position(a, addr);
    assert forall|i: int| 0 <= i < index implies (#[trigger] b[i]).addr != addr by {
        assert(a[i].addr != addr);
    }
    if index < a.len() {
        assert(a[index].addr == b[index].addr);
    }
    lemma_position_is(b, addr, index);
}

/// Where no address has two entries, every entry is the first for its
/// address.
pub proof fn lemma_position_of_entry(slots: Seq<Slot>, index: int)
    requires
        distinct(slots),
        0 <= index < slots.len(),
    ensures
        position(slots, slots[index].addr) == index,
        listed(slots, slots[index].addr),
{
    lemma_position_is(slots, slots[index].addr, index);
}

/// Asking twice for a breakpoint is asking once: the second request adds no
/// entry and leaves every state, and so every saved byte, as it is.
pub proof fn lemma_insert_twice(slots: Seq<Slot>, addr: usize)
    ensures
        listed(inserted(slots, addr), addr),
        inserted(inserted(slots, addr), addr) == inserted(slots, addr),
        listed(slots, addr) ==> inserted(slots, addr) == slots,
        well_formed(slots) ==> well_formed(inserted(slots, addr)),
{
    lemma_position(slots, addr);
    lemma_position_push(slots, Slot { addr, state: None }, addr);
}

/// What asking for a breakpoint does to the mapping: a new address is mapped
/// to pending, and nothing else changes.
pub proof fn lemma_inserted_map(slots: Seq<Slot>, addr: usize)
    ensures
        as_map(inserted(slots, addr)) == if as_map(slots).contains_key(addr) {
            as_map(slots)
        } else {
            as_map(slots).insert(addr, None)
        },
{
    if !listed(slots, addr) {
        let slot = Slot { addr, state: None };
        let longer = slots.push(slot);
        assert forall|a: usize| #[trigger] listed(longer, a) == (listed(slots, a) || a == addr) by {
            lemma_position_push(slots, slot, a);
        }
        assert forall|a: usize| listed(longer, a) implies #[trigger] installed_at(longer, a) == (if a
            == addr {
            None
        } else {
            installed_at(slots, a)
        }) by {
            lemma_position_push(slots, slot, a);
            lemma_position(slots, a);
        }
        assert(as_map(longer) =~= as_map(slots).insert(addr, None));
    }
}

/// What recording a state does to the mapping: the address is mapped to the
/// new state, and nothing else changes.
pub proof fn lemma_recorded_map(slots: Seq<Slot>, addr: usize, saved: Option<u8>)
    requires
        well_formed(slots),
    ensures
        well_formed(recorded(slots, addr, saved)),
        as_map(recorded(slots, addr, saved)) == if as_map(slots).contains_key(addr) {
            as_map(slots).insert(
                addr,
                match saved {
                    Some(orig_byte) => Some(Breakpoint { addr, orig_byte }),
                    None => None,
                },
            )
        } else {
            as_map(slots)
        },
{
    lemma_position(slots, addr);
    if listed(slots, addr) {
        let after = recorded(slots, addr, saved);
        let state: Option<Breakpoint> = match saved {
            Some(orig_byte) => Some(Breakpoint { addr, orig_byte }),
            None => None,
        };
        assert forall|a: usize| #[trigger] listed(after, a) == listed(slots, a) by {
            lemma_position_by_addresses(slots, after, a);
        }
        assert forall|a: usize| listed(after, a) implies #[trigger] installed_at(after, a) == (if a
            == addr {
            state
        } else {
            installed_at(slots, a)
        }) by {
            lemma_position_by_addresses(slots, after, a);
            lemma_position(slots, a);
        }
        assert(as_map(after) =~= as_map(slots).insert(addr, state));
    }
}

/// The table of breakpoints.
pub struct BreakpointTable {
    slots: Vec<Slot>,
}

impl View for BreakpointTable {
    type V = Seq<Slot>;

    closed spec fn view(&self) -> Seq<Slot> {
        self.slots@
    }
}

impl BreakpointTable {
    /// An empty table.
    pub fn new() -> (table: BreakpointTable)
        ensures
            table@ == Seq::<Slot>::empty(),
            well_formed(table@),
    {
        BreakpointTable { slots: Vec::new() }
    }

    /// The number of entries.
    pub fn len(&self) -> (n: usize)
        ensures
            n == self@.len(),
    {
        self.slots.len()
    }

    /// The entry at `index`, in the order of insertion.
    pub fn slot(&self, index: usize) -> (slot: Option<Slot>)
        ensures
            slot == if index < self@.len() {
                Some(self@[index as int])
            } else {
                None
            },
    {
        if index < self.slots.len() {
            Some(self.slots[index])
        } else {
            None
        }
    }

    /// Where the entry for `addr` is, if there is one.
    pub fn find(&self, addr: usize) -> (index: Option<usize>)
        ensures
            index == if listed(self@, addr) {
                Some(position(self@, addr) as usize)
            } else {
                None
            },
            index matches Some(i) ==> i < self@.len() <= usize::MAX && i == position(self@, addr),
    {
        let mut i: usize = 0;
        while i < self.slots.len()
            invariant
                i <= self.slots.len(),
                forall|j: int| 0 <= j < i ==> (#[trigger] self.slots@[j]).addr != addr,
            decreases self.slots.len() - i,
        {
            if self.slots[i].addr == addr {
                proof {
                    lemma_position_is(self@, addr, i as int);
                }
                return Some(i);
            }
            i = i + 1;
        }
        proof {
            lemma_position_is(self@, addr, i as int);
        }
        None
    }

    /// Whether the table has an entry for `addr`.
    pub fn contains(&self, addr: usize) -> (present: bool)
        ensures
            present == listed(self@, addr),
            present == as_map(self@).contains_key(addr),
    {
        self.find(addr).is_some()
    }

    /// The state of the entry for `addr`: `None` if the table has no such
    /// entry, `Some(None)` if the breakpoint is pending, and `Some(Some(b))` if
    /// `b` is installed.
    pub fn get(&self, addr: usize) -> (state: Option<Option<Breakpoint>>)
        ensures
            state == if listed(self@, addr) {
                Some(installed_at(self@, addr))
            } else {
                None
            },
            state == as_map(self@).get(addr),
    {
        match self.find(addr) {
            Some(i) => Some(self.slots[i].state),
            None => None,
        }
    }

    /// The breakpoint installed at `addr`, if one is.
    pub fn installed(&self, addr: usize) -> (found: Option<Breakpoint>)
        ensures
            found == installed_at(self@, addr),
    {
        match self.find(addr) {
            Some(i) => self.slots[i].state,
            None => None,
        }
    }

    /// Asks for a breakpoint at `addr`. Adds a pending entry if the table has
    /// none for `addr`, and changes nothing if it has one. Returns whether the
    /// entry is new.
    pub fn insert(&mut self, addr: usize) -> (added: bool)
        ensures
            final(self)@ == inserted(old(self)@, addr),
            added == !listed(old(self)@, addr),
            well_formed(old(self)@) ==> well_formed(final(self)@),
            listed(final(self)@, addr),
            installed_at(final(self)@, addr) == installed_at(old(self)@, addr),
    {
        proof {
            lemma_position(self@, addr);
        }
        if self.contains(addr) {
            false
        } else {
            let ghost before = self@;
            self.slots.push(Slot { addr, state: None });
            proof {
                lemma_position_is(self@, addr, before.len() as int);
            }
            true
        }
    }

    /// Records that the breakpoint at `addr` is installed, with `saved` as the
    /// byte that the trap replaced, or that it is pending where `saved` is
    /// `None`. Changes nothing if the table has no entry for `addr`.
    pub fn record(&mut self, addr: usize, saved: Option<u8>)
        ensures
            final(self)@ == recorded(old(self)@, addr, saved),
            well_formed(old(self)@) ==> well_formed(final(self)@),
    {
        proof {
            lemma_position(self@, addr);
        }
        match self.find(addr) {
            Some(index) => {
                let state: Option<Breakpoint> = match saved {
                    Some(orig_byte) => Some(Breakpoint { addr, orig_byte }),
                    None => None,
                };
                self.slots.set(index, Slot { addr, state });
            },
            None => {},
        }
    }

    /// Makes every entry pending: nothing is installed any more.
    pub fn forget(&mut self)
        ensures
            final(self)@ == all_pending(old(self)@),
            well_formed(old(self)@) ==> well_formed(final(self)@),
    {
        let mut i: usize = 0;
        while i < self.slots.len()
            invariant
                i <= self.slots.len(),
                self.slots@.len() == old(self)@.len(),
                forall|j: int|
                    0 <= j < i ==> #[trigger] self.slots@[j] == (Slot {
                        addr: old(self)@[j].addr,
                        state: None,
                    }),
                forall|j: int| i <= j < self.slots@.len() ==> #[trigger] self.slots@[j] == old(self)@[j],
            decreases self.slots.len() - i,
        {
            let addr: usize = self.slots[i].addr;
            self.slots.set(i, Slot { addr, state: None });
            i = i + 1;
        }
        assert(self@ =~= all_pending(old(self)@));
    }
}

} // verus!
