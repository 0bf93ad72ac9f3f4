use vstd::prelude::*;

verus! {

/// Number of entries in a software page table.
pub const PAGE_TABLE_SIZE: usize = 32;

/// One translation of a software page table.
#[derive(Debug, Clone, Copy, PartialEq, Eq, Structural)]
pub struct PageTableEntry {
    pub vaddr: usize,
    pub paddr: usize,
    pub valid: bool,
}

/// Entry `i` is the first valid entry for `vaddr`.
pub open spec fn first_match(e: Seq<PageTableEntry>, vaddr: usize, i: int) -> bool {
    &&& 0 <= i < e.len()
    &&& e[i].valid && e[i].vaddr == vaddr
    &&& forall|j: int| 0 <= j < i ==> !(#[trigger] e[j].valid && e[j].vaddr == vaddr)
}

/// No valid entry translates `vaddr`.
pub open spec fn unmapped(e: Seq<PageTableEntry>, vaddr: usize) -> bool {
    forall|j: int| 0 <= j < e.len() ==> !(#[trigger] e[j].valid && e[j].vaddr == vaddr)
}

/// Entry `i` is the first invalid (free) entry.
pub open spec fn first_free(e: Seq<PageTableEntry>, i: int) -> bool {
    &&& 0 <= i < e.len()
    &&& !e[i].valid
    &&& forall|j: int| 0 <= j < i ==> #[trigger] e[j].valid
}

/// A fixed-size table of virtual-to-physical translations, searched in
/// order.
#[derive(Debug, Clone, Copy)]
pub struct PageTable {
    pub entries: [PageTableEntry; 32],
}

impl PageTable {
    /// A table with every entry invalid.
    pub fn new() -> (t: Self)
        ensures
            forall|i: int| 0 <= i < PAGE_TABLE_SIZE ==> !(#[trigger] t.entries@[i]).valid,
    {
        PageTable { entries: [PageTableEntry { vaddr: 0, paddr: 0, valid: false }; 32] }
    }

    /// The physical address of the first valid entry for `vaddr`.
    pub fn translate(&self, vaddr: usize) -> (r: Option<usize>)
        ensures
            match r {
                Some(p) => exists|i: int| #[trigger] first_match(self.entries@, vaddr, i) && self.entries@[i].paddr == p,
                None => unmapped(self.entries@, vaddr),
            },
    {
        let mut i: usize = 0;
        while i < PAGE_TABLE_SIZE
            invariant
                i <= PAGE_TABLE_SIZE,
                forall|j: int| 0 <= j < i ==> !(#[trigger] self.entries@[j].valid && self.entries@[j].vaddr == vaddr),
            decreases PAGE_TABLE_SIZE - i,
        {
            let e = self.entries[i];
            if e.valid && e.vaddr == vaddr {
                assert(first_match(self.entries@, vaddr, i as int));
                return Some(e.paddr);
            }
            i = i + 1;
        }
        None
    }

    /// Stores the translation `vaddr -> paddr` in the first invalid entry,
    /// or fails when every entry is valid.
    pub fn map(&mut self, vaddr: usize, paddr: usize) -> (r: Result<(), ()>)
        ensures
            match r {
                Ok(()) => exists|i: int| #[trigger] first_free(old(self).entries@, i)
                    && final(self).entries@ == old(self).entries@.update(i, PageTableEntry { vaddr, paddr, valid: true }),
                Err(()) => (forall|j: int| 0 <= j < PAGE_TABLE_SIZE ==> #[trigger] old(self).entries@[j].valid)
                    && final(self).entries@ == old(self).entries@,
            },
    {
        let mut i: usize = 0;
        while i < PAGE_TABLE_SIZE
            invariant
                i <= PAGE_TABLE_SIZE,
                self.entries@ == old(self).entries@,
                forall|j: int| 0 <= j < i ==> #[trigger] old(self).entries@[j].valid,
            decreases PAGE_TABLE_SIZE - i,
        {
            if !self.entries[i].valid {
                self.entries[i] = PageTableEntry { vaddr, paddr, valid: true };
                assert(first_free(old(self).entries@, i as int));
                return Ok(());
            }
            i = i + 1;
        }
        Err(())
    }
}

/// What is written can be read back: when `vaddr` had no translation and
/// `map` stored `vaddr -> paddr` in the first free entry, the first valid
/// entry for `vaddr` is the new one, so `translate` yields `paddr`.
pub proof fn law_map_then_translate(e: Seq<PageTableEntry>, i: int, vaddr: usize, paddr: usize)
    requires
        unmapped(e, vaddr),
        first_free(e, i),
    ensures
        first_match(e.update(i, PageTableEntry { vaddr, paddr, valid: true }), vaddr, i),
        e.update(i, PageTableEntry { vaddr, paddr, valid: true })[i].paddr == paddr,
{
}

/// Mapping one address leaves the translation of every other address as
/// it was.
pub proof fn law_map_keeps_others(e: Seq<PageTableEntry>, i: int, vaddr: usize, paddr: usize, other: usize, k: int)
    requires
        first_free(e, i),
        other != vaddr,
    ensures
        first_match(e, other, k) <==> first_match(e.update(i, PageTableEntry { vaddr, paddr, valid: true }), other, k),
        unmapped(e, other) <==> unmapped(e.update(i, PageTableEntry { vaddr, paddr, valid: true }), other),
{
    let e2 = e.update(i, PageTableEntry { vaddr, paddr, valid: true });
    assert forall|j: int| 0 <= j < e.len() implies
        (#[trigger] e[j].valid && e[j].vaddr == other) == (e2[j].valid && e2[j].vaddr == other) by {
        if j == i {
        }
    }
}

} // verus!
