//! A model of the guest's linear memory and allocator, instrumented so that
//! the ownership protocol can be stated and checked against it.
//!
//! The guest's memory is a flat byte array addressed by 32-bit offsets. The
//! allocator hands out disjoint regions and records each one; a deallocation
//! call must name a live region's offset together with exactly the (size,
//! align) pair of its allocation, and every call issued is logged in order.
//! A double free, or a free with the wrong layout descriptor, is therefore
//! visible as an error of the model — which is precisely what the free
//! protocol is proved never to cause.

use vstd::prelude::*;

verus! {

/// One allocation the guest allocator has handed out.
#[derive(Copy, Clone, Debug, PartialEq, Eq, Structural)]
pub struct AllocRecord {
    /// Offset of the region's first byte in linear memory.
    pub offset: u32,
    /// Size the region was allocated with.
    pub size: u32,
    /// Alignment the region was allocated with.
    pub align: u32,
    /// Whether the region is still allocated.
    pub live: bool,
}

/// One deallocation call issued to the guest allocator: the offset of the
/// region and the transported layout descriptor.
#[derive(Copy, Clone, Debug, PartialEq, Eq, Structural)]
pub struct FreeCall {
    pub offset: u32,
    pub size: u32,
    pub align: u32,
}

/// Why the instrumented allocator rejected a deallocation call.
#[derive(Copy, Clone, Debug, PartialEq, Eq, Structural)]
pub enum FreeError {
    /// No live allocation starts at the given offset: a double free, or an
    /// offset the allocator never produced.
    NotAllocated,
    /// A live allocation starts there, but it was made with a different
    /// (size, align) pair than the one handed back.
    WrongLayout,
}

/// The bytes of linear memory an allocation keeps other allocations out of.
/// A zero-sized allocation still occupies one byte, so that every
/// allocation has its own distinct offset.
pub open spec fn footprint(a: AllocRecord) -> int {
    if a.size == 0 {
        1
    } else {
        a.size as int
    }
}

/// An allocation record marked dead.
pub open spec fn kill(a: AllocRecord) -> AllocRecord {
    AllocRecord { live: false, ..a }
}

/// The guest's linear memory, its allocation table, and the log of
/// deallocation calls issued so far, in order.
pub struct GuestMem {
    /// The linear memory bytes.
    pub data: Vec<u8>,
    /// Every allocation ever made, in allocation order.
    pub allocs: Vec<AllocRecord>,
    /// Every deallocation call ever issued, in issue order.
    pub free_log: Vec<FreeCall>,
}

impl GuestMem {
    /// Allocations are disjoint, ordered, inside memory, and memory is
    /// addressable by 32-bit offsets.
    pub open spec fn wf(self) -> bool {
        &&& self.data@.len() <= u32::MAX
        &&& forall|i: int|
            0 <= i < self.allocs@.len() ==> (#[trigger] self.allocs@[i]).offset + footprint(
                self.allocs@[i],
            ) <= self.data@.len()
        &&& forall|i: int, j: int|
            #![trigger self.allocs@[i], self.allocs@[j]]
            0 <= i < j < self.allocs@.len() ==> self.allocs@[i].offset + footprint(
                self.allocs@[i],
            ) <= self.allocs@[j].offset
    }

    /// Some live allocation starts at `offset` and was made with exactly
    /// this (size, align) pair.
    pub open spec fn has_live(self, offset: u32, size: u32, align: u32) -> bool {
        exists|i: int|
            0 <= i < self.allocs@.len() && {
                let a = #[trigger] self.allocs@[i];
                a.live && a.offset == offset && a.size == size && a.align == align
            }
    }

    /// Some live allocation starts at `offset`.
    pub open spec fn live_at(self, offset: u32) -> bool {
        exists|i: int|
            0 <= i < self.allocs@.len() && (#[trigger] self.allocs@[i]).live
                && self.allocs@[i].offset == offset
    }

    /// The record at `offset` describes a live allocation whose layout
    /// descriptor is exactly the allocation's own (size, align).
    pub open spec fn owns(self, offset: u32, layout: crate::raw::Layout) -> bool {
        self.has_live(offset, layout.size, layout.align)
    }

    /// In a well-formed memory, distinct allocation records have distinct
    /// offsets, live or dead.
    pub proof fn lemma_offsets_distinct(self)
        requires
            self.wf(),
        ensures
            forall|i: int, j: int|
                #![trigger self.allocs@[i], self.allocs@[j]]
                0 <= i < self.allocs@.len() && 0 <= j < self.allocs@.len() && i != j
                    ==> self.allocs@[i].offset != self.allocs@[j].offset,
    {
        assert forall|i: int, j: int|
            #![trigger self.allocs@[i], self.allocs@[j]]
            0 <= i < self.allocs@.len() && 0 <= j < self.allocs@.len() && i
                != j implies self.allocs@[i].offset != self.allocs@[j].offset by {
            if i < j {
                assert(self.allocs@[i].offset + footprint(self.allocs@[i])
                    <= self.allocs@[j].offset);
            } else {
                assert(self.allocs@[j].offset + footprint(self.allocs@[j])
                    <= self.allocs@[i].offset);
            }
        }
    }

    /// A fresh guest memory: no bytes, no allocations, an empty log.
    pub fn new() -> (m: GuestMem)
        ensures
            m.wf(),
            m.data@.len() == 0,
            m.allocs@.len() == 0,
            m.free_log@.len() == 0,
    {
        GuestMem { data: Vec::new(), allocs: Vec::new(), free_log: Vec::new() }
    }

    /// Allocates a fresh region of `size` bytes for alignment `align` and
    /// returns its offset. The region is disjoint from every earlier
    /// allocation and lies beyond all previously readable bytes.
    pub fn allocate(&mut self, size: u32, align: u32) -> (offset: u32)
        requires
            old(self).wf(),
            1 <= align,
            old(self).data@.len() + align as int + size as int + 1 <= u32::MAX,
        ensures
            final(self).wf(),
            final(self).allocs@ == old(self).allocs@.push(
                AllocRecord { offset, size, align, live: true },
            ),
            final(self).free_log@ == old(self).free_log@,
            old(self).data@.len() <= offset,
            offset as int % align as int == 0,
            offset as int <= old(self).data@.len() + align - 1,
            final(self).data@.len() <= old(self).data@.len() + align + size,
            offset + size <= final(self).data@.len(),
            final(self).data@.len() == offset + footprint(
                AllocRecord { offset, size, align, live: true },
            ),
            final(self).data@.subrange(0, old(self).data@.len() as int) == old(self).data@,
            final(self).has_live(offset, size, align),
    {
        let start: usize = self.data.len();
        let al: usize = align as usize;
        let rem: usize = start % al;
        let pad: usize = if rem == 0 {
            0
        } else {
            al - rem
        };
        let offset: usize = start + pad;
        let total: usize = pad + (size as usize) + (if size == 0 {
            1
        } else {
            0
        });
        let mut k: usize = 0;
        while k < total
            invariant
                k <= total,
                self.data@.len() == start + k,
                self.data@.subrange(0, start as int) == old(self).data@,
                self.allocs@ == old(self).allocs@,
                self.free_log@ == old(self).free_log@,
                start == old(self).data@.len(),
                total <= u32::MAX - start,
            decreases total - k,
        {
            self.data.push(0);
            proof {
                assert(self.data@.subrange(0, start as int) =~= old(self).data@);
            }
            k += 1;
        }
        proof {
            let s = start as int;
            let a = al as int;
            vstd::arithmetic::div_mod::lemma_fundamental_div_mod(s, a);
            let q = s / a;
            if rem != 0 {
                assert(offset as int == a * q + a);
                assert(a * q + a == a * (q + 1)) by (nonlinear_arith);
                vstd::arithmetic::div_mod::lemma_mod_multiples_basic(q + 1, a);
                assert(a * (q + 1) == (q + 1) * a) by (nonlinear_arith);
            } else {
                assert(offset as int == s && s % a == 0);
            }
        }
        let off32: u32 = offset as u32;
        let rec = AllocRecord { offset: off32, size, align, live: true };
        self.allocs.push(rec);
        proof {
            let n = self.allocs@.len() - 1;
            assert(self.allocs@[n] == rec);
            assert forall|i: int|
                0 <= i < self.allocs@.len() implies (#[trigger] self.allocs@[i]).offset + footprint(
                self.allocs@[i],
            ) <= self.data@.len() by {
                if i < n {
                    assert(self.allocs@[i] == old(self).allocs@[i]);
                }
            }
        }
        off32
    }

    /// Writes `bytes` into memory starting at `offset`, leaving every other
    /// byte as it was.
    pub fn write_bytes(&mut self, offset: u32, bytes: &Vec<u8>)
        requires
            old(self).wf(),
            offset + bytes@.len() <= old(self).data@.len(),
        ensures
            final(self).wf(),
            final(self).data@.len() == old(self).data@.len(),
            final(self).data@.subrange(offset as int, offset + bytes@.len()) == bytes@,
            forall|j: int|
                0 <= j < final(self).data@.len() && !(offset <= j < offset + bytes@.len())
                    ==> final(self).data@[j] == old(self).data@[j],
            final(self).allocs@ == old(self).allocs@,
            final(self).free_log@ == old(self).free_log@,
    {
        let n: usize = bytes.len();
        let base: usize = offset as usize;
        let dlen: usize = self.data.len();
        let mut i: usize = 0;
        while i < n
            invariant
                i <= n,
                n == bytes@.len(),
                base == offset as usize,
                base + n <= dlen,
                dlen == self.data@.len(),
                self.data@.len() == old(self).data@.len(),
                self.allocs@ == old(self).allocs@,
                self.free_log@ == old(self).free_log@,
                forall|j: int| 0 <= j < i ==> self.data@[base + j] == bytes@[j],
                forall|j: int|
                    0 <= j < self.data@.len() && !(base <= j < base + i) ==> self.data@[j] == old(
                        self,
                    ).data@[j],
            decreases n - i,
        {
            self.data[base + i] = bytes[i];
            i += 1;
        }
        proof {
            assert(self.data@.subrange(offset as int, offset + bytes@.len()) =~= bytes@);
        }
    }

    /// Copies `len` bytes out of memory starting at `offset`.
    pub fn read_bytes(&self, offset: u32, len: u32) -> (out: Vec<u8>)
        requires
            offset + len <= self.data@.len(),
        ensures
            out@ == self.data@.subrange(offset as int, offset + len),
    {
        let base: usize = offset as usize;
        let n: usize = len as usize;
        let dlen: usize = self.data.len();
        let mut out: Vec<u8> = Vec::new();
        let mut i: usize = 0;
        while i < n
            invariant
                i <= n,
                base == offset as usize,
                n == len as usize,
                base + n <= dlen,
                dlen == self.data@.len(),
                out@.len() == i,
                forall|j: int| 0 <= j < i ==> out@[j] == self.data@[base + j],
            decreases n - i,
        {
            out.push(self.data[base + i]);
            i += 1;
        }
        proof {
            assert(out@ =~= self.data@.subrange(offset as int, offset + len));
        }
        out
    }

    /// One deallocation call against the allocator: succeeds exactly when a
    /// live allocation starts at `offset` and was made with this very
    /// (size, align) pair; then that allocation becomes dead and the call
    /// is appended to the log. On an error nothing changes.
    pub fn dealloc(&mut self, offset: u32, size: u32, align: u32) -> (r: Result<(), FreeError>)
        requires
            old(self).wf(),
        ensures
            final(self).wf(),
            final(self).data@ == old(self).data@,
            r is Ok <==> old(self).has_live(offset, size, align),
            r is Ok ==> {
                &&& final(self).free_log@ == old(self).free_log@.push(
                    FreeCall { offset, size, align },
                )
                &&& final(self).allocs@.len() == old(self).allocs@.len()
                &&& forall|i: int|
                    0 <= i < final(self).allocs@.len() ==> #[trigger] final(self).allocs@[i] == (
                    if old(self).allocs@[i].live && old(self).allocs@[i].offset == offset {
                        kill(old(self).allocs@[i])
                    } else {
                        old(self).allocs@[i]
                    })
            },
            r is Err ==> final(self).allocs@ == old(self).allocs@ && final(self).free_log@ == old(
                self,
            ).free_log@,
            r == Err::<(), FreeError>(FreeError::NotAllocated) <==> !old(self).live_at(offset),
            r == Err::<(), FreeError>(FreeError::WrongLayout) <==> old(self).live_at(offset)
                && !old(self).has_live(offset, size, align),
    {
        proof {
            old(self).lemma_offsets_distinct();
        }
        let n: usize = self.allocs.len();
        let mut i: usize = 0;
        while i < n
            invariant
                i <= n,
                n == self.allocs@.len(),
                *self == *old(self),
                old(self).wf(),
                forall|k: int|
                    0 <= k < i ==> !((#[trigger] self.allocs@[k]).live && self.allocs@[k].offset
                        == offset),
            decreases n - i,
        {
            let a = self.allocs[i];
            if a.live && a.offset == offset {
                if a.size == size && a.align == align {
                    self.allocs[i] = AllocRecord { live: false, ..a };
                    self.free_log.push(FreeCall { offset, size, align });
                    proof {
                        assert(old(self).has_live(offset, size, align));
                        assert forall|k: int| 0 <= k < self.allocs@.len() implies #[trigger] self
                            .allocs@[k] == (if old(self).allocs@[k].live && old(
                            self,
                        ).allocs@[k].offset == offset {
                            kill(old(self).allocs@[k])
                        } else {
                            old(self).allocs@[k]
                        }) by {
                            if k != i {
                                assert(old(self).allocs@[k].offset != offset || !old(
                                    self,
                                ).allocs@[k].live || old(self).allocs@[k].offset != old(
                                    self,
                                ).allocs@[i as int].offset);
                            }
                        }
                        assert forall|p: int, q: int|
                            #![trigger self.allocs@[p], self.allocs@[q]]
                            0 <= p < q < self.allocs@.len() implies self.allocs@[p].offset
                            + footprint(self.allocs@[p]) <= self.allocs@[q].offset by {
                            assert(self.allocs@[p].offset == old(self).allocs@[p].offset);
                            assert(footprint(self.allocs@[p]) == footprint(old(self).allocs@[p]));
                        }
                    }
                    return Ok(());
                } else {
                    proof {
                        assert(old(self).live_at(offset));
                        assert forall|k: int|
                            0 <= k < self.allocs@.len() && {
                                let b = #[trigger] self.allocs@[k];
                                b.live && b.offset == offset && b.size == size && b.align == align
                            } implies false by {
                            assert(self.allocs@[k].offset == self.allocs@[i as int].offset);
                        }
                    }
                    return Err(FreeError::WrongLayout);
                }
            }
            i += 1;
        }
        Err(FreeError::NotAllocated)
    }
}

/// The second memory is the first with more allocations and more bytes: no
/// old byte changed, no allocation removed or altered, no deallocation call
/// issued. Everything the guest builds only grows the memory this way.
pub open spec fn grew(m1: GuestMem, m2: GuestMem) -> bool {
    &&& m1.allocs@.is_prefix_of(m2.allocs@)
    &&& m2.free_log@ == m1.free_log@
    &&& m1.data@.len() <= m2.data@.len()
    &&& m2.data@.subrange(0, m1.data@.len() as int) == m1.data@
}

/// Growth is reflexive: a memory grew (vacuously) from itself.
pub proof fn lemma_grew_refl(m: GuestMem)
    ensures
        grew(m, m),
{
    assert(m.data@.subrange(0, m.data@.len() as int) =~= m.data@);
    assert(m.allocs@.subrange(0, m.allocs@.len() as int) =~= m.allocs@);
}

/// Growth composes.
pub proof fn lemma_grew_trans(m1: GuestMem, m2: GuestMem, m3: GuestMem)
    requires
        grew(m1, m2),
        grew(m2, m3),
    ensures
        grew(m1, m3),
{
    assert(m3.data@.subrange(0, m1.data@.len() as int) =~= m2.data@.subrange(
        0,
        m1.data@.len() as int,
    ));
    assert forall|i: int| 0 <= i < m1.allocs@.len() implies m1.allocs@[i] == m3.allocs@[i] by {
        assert(m1.allocs@[i] == m2.allocs@[i]);
        assert(m2.allocs@[i] == m3.allocs@[i]);
    }
}

/// A live allocation stays live while the memory only grows.
pub proof fn lemma_grew_has_live(m1: GuestMem, m2: GuestMem, offset: u32, size: u32, align: u32)
    requires
        grew(m1, m2),
        m1.has_live(offset, size, align),
    ensures
        m2.has_live(offset, size, align),
{
    let i = choose|i: int|
        0 <= i < m1.allocs@.len() && {
            let a = #[trigger] m1.allocs@[i];
            a.live && a.offset == offset && a.size == size && a.align == align
        };
    assert(m2.allocs@[i] == m1.allocs@[i]);
}

/// Bytes already written stay as they are while the memory only grows.
pub proof fn lemma_grew_preserves_bytes(m1: GuestMem, m2: GuestMem, a: int, b: int)
    requires
        grew(m1, m2),
        0 <= a <= b <= m1.data@.len(),
    ensures
        m2.data@.subrange(a, b) == m1.data@.subrange(a, b),
{
    assert(m2.data@.subrange(a, b) =~= m2.data@.subrange(0, m1.data@.len() as int).subrange(a, b));
    assert(m1.data@.subrange(a, b) =~= m2.data@.subrange(a, b));
}

/// The number of live allocations in an allocation table.
pub open spec fn spec_live_count(allocs: Seq<AllocRecord>) -> int
    decreases allocs.len(),
{
    if allocs.len() == 0 {
        0
    } else {
        spec_live_count(allocs.drop_last()) + (if allocs.last().live {
            1int
        } else {
            0int
        })
    }
}

impl GuestMem {
    /// Counts the allocations that are still live; a leak detector's view.
    pub fn live_count(&self) -> (n: usize)
        ensures
            n == spec_live_count(self.allocs@),
    {
        let total: usize = self.allocs.len();
        let mut n: usize = 0;
        let mut i: usize = 0;
        while i < total
            invariant
                i <= total,
                total == self.allocs@.len(),
                n <= i,
                n == spec_live_count(self.allocs@.subrange(0, i as int)),
            decreases total - i,
        {
            proof {
                assert(self.allocs@.subrange(0, i + 1).drop_last() =~= self.allocs@.subrange(
                    0,
                    i as int,
                ));
                assert(self.allocs@.subrange(0, i + 1).last() == self.allocs@[i as int]);
            }
            if self.allocs[i].live {
                n += 1;
            }
            i += 1;
        }
        proof {
            assert(self.allocs@.subrange(0, total as int) =~= self.allocs@);
        }
        n
    }
}

} // verus!
