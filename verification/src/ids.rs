//! Identifiers for attendants, requests and guards.

use vstd::prelude::*;

verus! {

/// How many identifiers there are before they start over.
pub open spec fn id_count() -> int {
    0x1_0000_0000
}

/// The identifier that comes `n` after `first`.
pub open spec fn id_after(first: u32, n: nat) -> u32 {
    ((first + n) % id_count()) as u32
}

/// Hands out identifiers in order. This _can_ overflow, and then starts over.
#[derive(Debug)]
pub struct IdGenerator {
    pub next: u32,
}

impl IdGenerator {
    /// Creates a generator that starts at 0.
    pub fn new() -> (generator: Self)
        ensures
            generator.next == 0,
    {
        IdGenerator { next: 0 }
    }

    /// Gets a new identifier.
    pub fn next_id(&mut self) -> (id: u32)
        ensures
            id == old(self).next,
            final(self).next == id_after(old(self).next, 1),
    {
        let id = self.next;
        self.next = if id == u32::MAX {
            0
        } else {
            id + 1
        };
        id
    }
}

/// Asking one by one walks through the identifiers that come after the first.
pub proof fn ids_come_one_by_one(first: u32, n: nat)
    ensures
        id_after(first, 0) == first,
        id_after(id_after(first, n), 1) == id_after(first, n + 1),
{
}

/// The first 2^32 identifiers are all different.
pub proof fn ids_are_distinct(first: u32, m: nat, n: nat)
    requires
        m < n < m + id_count(),
    ensures
        id_after(first, m) != id_after(first, n),
{
}

/// The key of the guard number `n` of an attendant.
pub open spec fn key_of(attendant: u32, n: u32) -> u64 {
    (attendant * id_count() + n) as u64
}

/// Gets the key of the guard number `n` of an attendant.
pub fn guard_key(attendant: u32, n: u32) -> (key: u64)
    ensures
        key == key_of(attendant, n),
{
    attendant as u64 * 0x1_0000_0000 + n as u64
}

/// Different guards have different keys, whichever attendants they belong to.
pub proof fn guard_keys_are_distinct(attendant: u32, n: u32, attendant2: u32, n2: u32)
    requires
        key_of(attendant, n) == key_of(attendant2, n2),
    ensures
        attendant == attendant2,
        n == n2,
{
}

/// The next identifier is one more, and 0 after the largest.
pub proof fn ids_count_up(id: u32)
    ensures
        id < u32::MAX ==> id_after(id, 1) == id + 1,
        id == u32::MAX ==> id_after(id, 1) == 0,
{
}

} // verus!
