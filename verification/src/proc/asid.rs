//! Address-space identifiers, handed out in generations: when the identifiers of
//! a generation run out, the next generation starts and reuses them.
use vstd::prelude::*;

verus! {

/// The number of hardware ASIDs (16 bits on RISC-V).
pub const MAX_ASID: usize = 65536;

/// An ASID token: the identifier and the generation it belongs to.
#[derive(Clone, Copy, PartialEq, Eq, Structural, Debug)]
pub struct Asid {
    pub id: u16,
    pub generation: u64,
}

impl Asid {
    pub fn default() -> (r: Self)
        ensures
            r.id == 0 && r.generation == 0,
    {
        Self { id: 0, generation: 0 }
    }

    pub fn from(id: u16, generation: u64) -> (r: Asid)
        ensures
            r.id == id && r.generation == generation,
    {
        Asid { id, generation }
    }
}

/// The ASID allocator: the last identifier handed out and the current generation.
pub struct AsidManager {
    pub current_asid: u16,
    pub generation: u64,
}

/// The allocator state after one allocation.
pub open spec fn next_asid_state(current: u16, generation: u64) -> (u16, u64) {
    if (current as int) < MAX_ASID - 1 {
        ((current + 1) as u16, generation)
    } else {
        (1u16, (generation + 1) as u64)
    }
}

impl AsidManager {
    /// A fresh allocator: no identifier handed out, generation 1.
    pub fn new() -> (r: Self)
        ensures
            r.current_asid == 0 && r.generation == 1,
    {
        Self { current_asid: 0, generation: 1 }
    }

    /// Hands out the next identifier. When the last one has been used, a new
    /// generation begins with identifier 1 and the second result is true: every
    /// TLB entry must then be flushed before the token is used.
    pub fn allocate(&mut self) -> (r: (Asid, bool))
        requires
            old(self).generation < u64::MAX,
        ensures
            (final(self).current_asid, final(self).generation) == next_asid_state(old(self).current_asid, old(self).generation),
            r.0 == (Asid { id: final(self).current_asid, generation: final(self).generation }),
            r.1 == ((old(self).current_asid as int) >= MAX_ASID - 1),
    {
        let mut flush = false;
        if (self.current_asid as usize) < MAX_ASID - 1 {
            self.current_asid = self.current_asid + 1;
        } else {
            self.generation = self.generation + 1;
            self.current_asid = 1;
            flush = true;
        }
        (Asid { id: self.current_asid, generation: self.generation }, flush)
    }

    /// A token is valid when it names an identifier of the current generation.
    pub fn check(&self, token: Asid) -> (r: bool)
        ensures
            r == (token.id != 0 && token.generation == self.generation),
    {
        token.id != 0 && token.generation == self.generation
    }
}

/// Allocates an ASID from `manager` (see `AsidManager::alloc`).
pub fn alloc_asid(manager: &mut AsidManager) -> (r: (Asid, bool))
    requires
        old(manager).generation < u64::MAX,
    ensures
        (final(manager).current_asid, final(manager).generation) == next_asid_state(old(manager).current_asid, old(manager).generation),
        r.0 == (Asid { id: final(manager).current_asid, generation: final(manager).generation }),
        r.1 == ((old(manager).current_asid as int) >= MAX_ASID - 1),
{
    manager.allocate()
}

/// Checks a token against `manager` (see `AsidManager::check`).
pub fn check_asid(manager: &AsidManager, token: Asid) -> (r: bool)
    ensures
        r == (token.id != 0 && token.generation == manager.generation),
{
    manager.check(token)
}

/// A token is valid against an allocator state (the test `check` makes).
pub open spec fn token_valid(token: Asid, generation: u64) -> bool {
    token.id != 0 && token.generation == generation
}

/// A freshly allocated token is valid for the allocator that issued it.
pub proof fn law_allocated_token_checks(current: u16, generation: u64)
    requires
        generation < u64::MAX,
    ensures
        ({
            let (c, g) = next_asid_state(current, generation);
            token_valid(Asid { id: c, generation: g }, g)
        }),
{
}

/// Tokens of an earlier generation are invalid once a new generation begins.
pub proof fn law_rollover_invalidates(current: u16, generation: u64, token: Asid)
    requires
        generation < u64::MAX,
        token.generation == generation,
        (current as int) >= MAX_ASID - 1,
    ensures
        !token_valid(token, next_asid_state(current, generation).1),
{
}

/// Within one generation, successive allocations give distinct identifiers.
pub proof fn law_tokens_distinct_within_generation(current: u16, generation: u64)
    requires
        generation < u64::MAX,
    ensures
        ({
            let (c1, g1) = next_asid_state(current, generation);
            let (c2, g2) = next_asid_state(c1, g1);
            g1 == g2 ==> c1 != c2
        }),
{
}

/// The allocator state after `n` allocations from `(current, generation)`.
pub open spec fn asid_after(current: u16, generation: u64, n: nat) -> (u16, u64)
    decreases n,
{
    if n == 0 {
        (current, generation)
    } else {
        let (c, g) = asid_after(current, generation, (n - 1) as nat);
        next_asid_state(c, g)
    }
}

proof fn lemma_asid_after(current: u16, generation: u64, n: nat)
    requires
        current + n <= MAX_ASID - 1,
    ensures
        asid_after(current, generation, n) == ((current + n) as u16, generation),
    decreases n,
{
    if n > 0 {
        lemma_asid_after(current, generation, (n - 1) as nat);
    }
}

/// Allocation counts up within a generation: as long as identifiers remain,
/// `n` allocations from `current` end at `current + n` in the same
/// generation, and no identifier is handed out twice on the way.
pub proof fn law_asids_count_up_within_generation(current: u16, generation: u64, n: nat)
    requires
        current + n <= MAX_ASID - 1,
    ensures
        asid_after(current, generation, n) == ((current + n) as u16, generation),
        forall|i: nat, j: nat| 1 <= i < j <= n ==> #[trigger] asid_after(current, generation, i).0
            != #[trigger] asid_after(current, generation, j).0,
{
    lemma_asid_after(current, generation, n);
    assert forall|i: nat, j: nat| 1 <= i < j <= n implies #[trigger] asid_after(current, generation, i).0
        != #[trigger] asid_after(current, generation, j).0 by {
        lemma_asid_after(current, generation, i);
        lemma_asid_after(current, generation, j);
    }
}

/// When the identifiers of a generation are used up, the next allocation opens
/// the next generation at identifier 1, so that no identifier of the old
/// generation is reused within it.
pub proof fn law_rollover_starts_next_generation(current: u16, generation: u64)
    requires
        (current as int) >= MAX_ASID - 1,
        generation < u64::MAX,
    ensures
        next_asid_state(current, generation) == (1u16, (generation + 1) as u64),
{
}

} // verus!
