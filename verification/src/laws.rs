//! The protocol's guarantees, stated and proved over the specifications
//! that the encoder's, decoder's and free protocol's own contracts use.

use vstd::prelude::*;
use vstd::utf8::{encode_utf8, encode_utf8_decode_utf8, encode_utf8_valid_utf8};

use crate::codec::{register_box_of_bytes, DecodeError};
use crate::host::{
    freed_exactly, register_box_free_calls, register_free_calls, slice_alloc_free_calls,
    spec_read_string, string_free_calls, systems_free_calls,
};
use crate::mem::{kill, spec_live_count, AllocRecord, FreeCall, GuestMem};
use crate::raw::{Layout, PluginBox, PluginRegister, PluginSliceAlloc, PluginString, PluginSystem};

verus! {

/// Round-trip: for every character sequence, the bytes the guest encoder
/// stores for it decode back, on the host side, to exactly that sequence
/// — the stored region is valid UTF-8 and reading it succeeds.
pub proof fn lemma_string_round_trip(m: GuestMem, r: PluginString, s: Seq<char>)
    requires
        r.ptr + r.len <= m.data@.len(),
        m.data@.subrange(r.ptr as int, r.ptr + r.len) == encode_utf8(s),
    ensures
        spec_read_string(m.data@, r) == Ok::<Seq<char>, DecodeError>(s),
{
    encode_utf8_valid_utf8(s);
    encode_utf8_decode_utf8(s);
}

/// Encoding then freeing leaves no residual allocation: if a fresh
/// allocation backed the encoded string and the free protocol has run on
/// it, the number of live allocations is back to what it was before the
/// encoder ran, and every older allocation is exactly as it was.
pub proof fn lemma_encode_free_no_residue(
    m0: GuestMem,
    m1: GuestMem,
    m2: GuestMem,
    r: PluginString,
)
    requires
        m1.wf(),
        r.layout == (Layout { size: r.len, align: 1 }),
        m1.allocs@ == m0.allocs@.push(
            (AllocRecord { offset: r.ptr, size: r.len, align: 1, live: true }),
        ),
        freed_exactly(m1, m2, string_free_calls(r)),
    ensures
        spec_live_count(m2.allocs@) == spec_live_count(m0.allocs@),
        forall|k: int| 0 <= k < m0.allocs@.len() ==> m2.allocs@[k] == m0.allocs@[k],
{
    m1.lemma_offsets_distinct();
    let rec = AllocRecord { offset: r.ptr, size: r.len, align: 1, live: true };
    let n = m0.allocs@.len() as int;
    let call = string_free_calls(r)[0];
    assert(call.offset == r.ptr);
    assert forall|k: int| 0 <= k < n implies m2.allocs@[k] == m0.allocs@[k] by {
        assert(m1.allocs@[k] == m0.allocs@[k]);
        assert(m1.allocs@[n] == rec);
        assert(m1.allocs@[k].offset != m1.allocs@[n].offset);
        if crate::host::calls_hit(string_free_calls(r), m0.allocs@[k].offset) {
            let h = choose|h: int|
                0 <= h < string_free_calls(r).len() && (#[trigger] string_free_calls(
                    r,
                )[h]).offset == m0.allocs@[k].offset;
            assert(h == 0);
            assert(false);
        }
    }
    assert(crate::host::calls_hit(string_free_calls(r), r.ptr)) by {
        assert(string_free_calls(r)[0].offset == r.ptr);
    }
    assert(m2.allocs@[n] == kill(rec));
    assert(m2.allocs@ =~= m0.allocs@.push(kill(rec)));
    assert(m0.allocs@.push(kill(rec)).drop_last() =~= m0.allocs@);
}

/// Killing exactly one live allocation record lowers the live count by
/// one.
proof fn lemma_count_kill_one(a1: Seq<AllocRecord>, a2: Seq<AllocRecord>, j: int)
    requires
        a1.len() == a2.len(),
        0 <= j < a1.len(),
        a1[j].live,
        a2[j] == kill(a1[j]),
        forall|k: int| 0 <= k < a1.len() && k != j ==> a1[k] == a2[k],
    ensures
        spec_live_count(a2) == spec_live_count(a1) - 1,
    decreases a1.len(),
{
    if j == a1.len() - 1 {
        assert(a1.drop_last() =~= a2.drop_last());
        assert(!a2.last().live);
    } else {
        lemma_count_kill_one(a1.drop_last(), a2.drop_last(), j);
        assert(a1.last() == a2.last());
    }
}

/// Some record of the table is the live allocation a call names.
spec fn seq_has_live(a: Seq<AllocRecord>, c: FreeCall) -> bool {
    exists|j: int|
        0 <= j < a.len() && {
            let x = #[trigger] a[j];
            x.live && x.offset == c.offset && x.size == c.size && x.align == c.align
        }
}

/// Applying a set of deallocation calls with distinct offsets, each
/// naming a live allocation, kills exactly one allocation per call.
proof fn lemma_count_killed(a1: Seq<AllocRecord>, a2: Seq<AllocRecord>, calls: Seq<FreeCall>)
    requires
        forall|k: int, l: int|
            #![trigger a1[k], a1[l]]
            0 <= k < a1.len() && 0 <= l < a1.len() && k != l ==> a1[k].offset != a1[l].offset,
        forall|i: int| 0 <= i < calls.len() ==> seq_has_live(a1, #[trigger] calls[i]),
        forall|i: int, l: int|
            #![trigger calls[i], calls[l]]
            0 <= i < l < calls.len() ==> calls[i].offset != calls[l].offset,
        a2.len() == a1.len(),
        forall|k: int|
            0 <= k < a2.len() ==> #[trigger] a2[k] == (if a1[k].live && crate::host::calls_hit(
                calls,
                a1[k].offset,
            ) {
                kill(a1[k])
            } else {
                a1[k]
            }),
    ensures
        spec_live_count(a2) == spec_live_count(a1) - calls.len(),
    decreases calls.len(),
{
    if calls.len() == 0 {
        assert(a2 =~= a1);
    } else {
        let c = calls.last();
        let rest = calls.drop_last();
        let last = calls.len() - 1;
        assert(seq_has_live(a1, calls[last]));
        let j = choose|j: int|
            0 <= j < a1.len() && {
                let a = #[trigger] a1[j];
                a.live && a.offset == c.offset && a.size == c.size && a.align == c.align
            };
        let mid = Seq::new(
            a1.len(),
            |k: int|
                if k == j {
                    kill(a1[j])
                } else {
                    a1[k]
                },
        );
        lemma_count_kill_one(a1, mid, j);
        assert forall|i: int| 0 <= i < rest.len() implies seq_has_live(
            mid,
            #[trigger] rest[i],
        ) by {
            assert(rest[i] == calls[i]);
            assert(seq_has_live(a1, calls[i]));
            let cc = calls[i];
            let w = choose|w: int|
                0 <= w < a1.len() && {
                    let a = #[trigger] a1[w];
                    a.live && a.offset == cc.offset && a.size == cc.size && a.align == cc.align
                };
            assert(calls[i].offset != c.offset);
            assert(w != j);
            assert(mid[w] == a1[w]);
            assert(mid[w].live && mid[w].offset == rest[i].offset && mid[w].size == rest[i].size
                && mid[w].align == rest[i].align);
        }
        assert forall|k: int| 0 <= k < a2.len() implies #[trigger] a2[k] == (if mid[k].live
            && crate::host::calls_hit(rest, mid[k].offset) {
            kill(mid[k])
        } else {
            mid[k]
        }) by {
            if k == j {
                assert(a1[j].live && crate::host::calls_hit(calls, a1[j].offset)) by {
                    assert(calls[last].offset == a1[j].offset);
                }
                assert(a2[j] == kill(a1[j]));
                assert(!mid[j].live);
            } else {
                assert(mid[k] == a1[k]);
                if a1[k].live && crate::host::calls_hit(calls, a1[k].offset) {
                    let h = choose|h: int|
                        0 <= h < calls.len() && (#[trigger] calls[h]).offset == a1[k].offset;
                    if h == last {
                        assert(a1[k].offset == a1[j].offset);
                        assert(false);
                    }
                    assert(rest[h] == calls[h]);
                    assert(crate::host::calls_hit(rest, a1[k].offset));
                } else {
                    if mid[k].live && crate::host::calls_hit(rest, mid[k].offset) {
                        let h = choose|h: int|
                            0 <= h < rest.len() && (#[trigger] rest[h]).offset == mid[k].offset;
                        assert(calls[h] == rest[h]);
                        assert(crate::host::calls_hit(calls, a1[k].offset));
                        assert(false);
                    }
                }
            }
        }
        lemma_count_killed(mid, a2, rest);
    }
}

/// Freeing leaves no residue, composite or not: a deallocation-call
/// sequence that meets the ownership obligation, applied exactly, lowers
/// the number of live allocations by exactly the number of calls — each
/// call released one allocation, and nothing else changed.
pub proof fn lemma_free_no_residue(m1: GuestMem, m2: GuestMem, calls: Seq<FreeCall>)
    requires
        m1.wf(),
        crate::host::free_calls_owned(m1, calls),
        freed_exactly(m1, m2, calls),
    ensures
        spec_live_count(m2.allocs@) == spec_live_count(m1.allocs@) - calls.len(),
{
    m1.lemma_offsets_distinct();
    assert forall|i: int| 0 <= i < calls.len() implies seq_has_live(
        m1.allocs@,
        #[trigger] calls[i],
    ) by {
        let c = calls[i];
        assert(m1.has_live(c.offset, c.size, c.align));
        let j = choose|j: int|
            0 <= j < m1.allocs@.len() && {
                let a = #[trigger] m1.allocs@[j];
                a.live && a.offset == c.offset && a.size == c.size && a.align == c.align
            };
        assert(m1.allocs@[j].live && m1.allocs@[j].offset == c.offset && m1.allocs@[j].size
            == c.size && m1.allocs@[j].align == c.align);
    }
    lemma_count_killed(m1.allocs@, m2.allocs@, calls);
}

/// The call at index `i` of the element part frees element `i`'s name:
/// the elements are freed in ascending index order.
pub proof fn lemma_systems_free_calls_index(els: Seq<PluginSystem>, i: int)
    requires
        0 <= i < els.len(),
    ensures
        systems_free_calls(els).len() == els.len(),
        systems_free_calls(els)[i] == (FreeCall {
            offset: els[i].name.ptr,
            size: els[i].name.layout.size,
            align: els[i].name.layout.align,
        }),
    decreases els.len(),
{
    lemma_systems_free_calls_len(els);
    lemma_systems_free_calls_len(els.drop_last());
    if i < els.len() - 1 {
        lemma_systems_free_calls_index(els.drop_last(), i);
    }
}

/// One call per element.
pub proof fn lemma_systems_free_calls_len(els: Seq<PluginSystem>)
    ensures
        systems_free_calls(els).len() == els.len(),
    decreases els.len(),
{
    if els.len() > 0 {
        lemma_systems_free_calls_len(els.drop_last());
    }
}

/// Leaf-to-root order: the full call sequence for a boxed registration
/// record with `n` systems has exactly `n + 4` calls and is pinned, call
/// by call — the name, the version, each system's name in ascending index
/// order, then the systems buffer, and the container allocation last. In
/// particular every nested sub-allocation's call comes strictly before
/// its parent's: each element's before the buffer's, and everything
/// before the container's.
pub proof fn lemma_free_order(
    bx: PluginBox<PluginRegister>,
    box_offset: u32,
    els: Seq<PluginSystem>,
)
    ensures
        register_box_free_calls(bx, box_offset, els).len() == els.len() + 4,
        register_free_calls(bx.boxed, els).len() == els.len() + 3,
        register_box_free_calls(bx, box_offset, els)[0] == (FreeCall {
            offset: bx.boxed.name.ptr,
            size: bx.boxed.name.layout.size,
            align: bx.boxed.name.layout.align,
        }),
        register_box_free_calls(bx, box_offset, els)[1] == (FreeCall {
            offset: bx.boxed.version.ptr,
            size: bx.boxed.version.layout.size,
            align: bx.boxed.version.layout.align,
        }),
        forall|i: int|
            0 <= i < els.len() ==> register_box_free_calls(bx, box_offset, els)[2 + i]
                == (FreeCall {
                offset: els[i].name.ptr,
                size: els[i].name.layout.size,
                align: els[i].name.layout.align,
            }),
        register_box_free_calls(bx, box_offset, els)[2 + els.len() as int] == (FreeCall {
            offset: bx.boxed.systems.elements,
            size: bx.boxed.systems.layout.size,
            align: bx.boxed.systems.layout.align,
        }),
        register_box_free_calls(bx, box_offset, els)[3 + els.len() as int] == (FreeCall {
            offset: box_offset,
            size: bx.layout.size,
            align: bx.layout.align,
        }),
{
    lemma_systems_free_calls_len(els);
    assert forall|i: int| 0 <= i < els.len() implies register_box_free_calls(
        bx,
        box_offset,
        els,
    )[2 + i] == (FreeCall {
        offset: els[i].name.ptr,
        size: els[i].name.layout.size,
        align: els[i].name.layout.align,
    }) by {
        lemma_systems_free_calls_index(els, i);
    }
}

/// Slice round-trip: the elements the guest encoder stored in a plain
/// slice's buffer are exactly what the host reader's little-endian
/// decoding yields back, element by element.
pub proof fn lemma_plain_slice_round_trip(m: GuestMem, r: crate::raw::PluginSlice, els: Seq<u32>)
    requires
        r.elements + 4 * els.len() <= m.data@.len(),
        r.len == els.len(),
        m.data@.subrange(r.elements as int, r.elements + 4 * els.len()) == crate::codec::u32s_bytes(
            els,
        ),
    ensures
        forall|i: int|
            0 <= i < els.len() ==> vstd::bytes::spec_u32_from_le_bytes(
                m.data@.subrange(r.elements + 4 * i, r.elements + 4 * i + 4),
            ) == els[i],
{
    assert forall|i: int| 0 <= i < els.len() implies vstd::bytes::spec_u32_from_le_bytes(
        m.data@.subrange(r.elements + 4 * i, r.elements + 4 * i + 4),
    ) == els[i] by {
        crate::codec::lemma_u32s_bytes_index(els, i);
        vstd::bytes::lemma_auto_spec_u32_to_from_le_bytes();
        assert(m.data@.subrange(r.elements + 4 * i, r.elements + 4 * i + 4) =~= m.data@.subrange(
            r.elements as int,
            r.elements + 4 * els.len(),
        ).subrange(4 * i, 4 * i + 4));
    }
}

/// The elements of a built systems buffer, decoded from index `i` on,
/// read back as exactly the systems they were built from.
proof fn lemma_built_systems_decode(
    m: GuestMem,
    box_offset: u32,
    bx: PluginBox<PluginRegister>,
    els: Seq<PluginSystem>,
    name: Seq<char>,
    version: Seq<char>,
    systems: Seq<(crate::raw::SystemStage, Seq<char>)>,
    i: int,
)
    requires
        crate::guest::built_register(m, box_offset, bx, els, name, version, systems),
        0 <= i <= els.len(),
    ensures
        crate::host::spec_read_systems_from(m.data@, bx.boxed.systems, i) == Ok::<
            Seq<crate::host::SystemView>,
            DecodeError,
        >(
            Seq::new(
                (els.len() - i) as nat,
                |j: int|
                    crate::host::SystemView { stage: systems[i + j].0, name: systems[i + j].1 },
            ),
        ),
    decreases els.len() - i,
{
    let data = m.data@;
    let sl = bx.boxed.systems;
    let views = Seq::new(
        (els.len() - i) as nat,
        |j: int| crate::host::SystemView { stage: systems[i + j].0, name: systems[i + j].1 },
    );
    if i == els.len() {
        assert(views =~= Seq::<crate::host::SystemView>::empty());
    } else {
        crate::codec::lemma_systems_bytes_len(els);
        crate::codec::lemma_systems_bytes_index(els, i);
        let chunk = data.subrange(
            sl.elements + crate::codec::SYSTEM_REC_SIZE * i,
            sl.elements + crate::codec::SYSTEM_REC_SIZE * i + crate::codec::SYSTEM_REC_SIZE,
        );
        assert(chunk =~= data.subrange(sl.elements as int, sl.elements + 20 * els.len()).subrange(
            20 * i,
            20 * i + 20,
        ));
        assert(chunk == crate::codec::system_rec_bytes(els[i]));
        crate::codec::lemma_system_rec_round_trip(els[i]);
        lemma_string_round_trip(m, els[i].name, systems[i].1);
        lemma_built_systems_decode(m, box_offset, bx, els, name, version, systems, i + 1);
        let rest = Seq::new(
            (els.len() - i - 1) as nat,
            |j: int|
                crate::host::SystemView {
                    stage: systems[i + 1 + j].0,
                    name: systems[i + 1 + j].1,
                },
        );
        let v = crate::host::SystemView { stage: els[i].stage, name: systems[i].1 };
        assert(seq![v] + rest =~= views);
    }
}

/// End to end: what the guest built, the host decodes back. A built
/// registration record reads as exactly the name, the version and the
/// systems it was built from — together with `lemma_free_order`, the
/// record round-trips and then frees leaf to root, one call per owned
/// allocation.
pub proof fn lemma_built_register_decodes(
    m: GuestMem,
    box_offset: u32,
    bx: PluginBox<PluginRegister>,
    els: Seq<PluginSystem>,
    name: Seq<char>,
    version: Seq<char>,
    systems: Seq<(crate::raw::SystemStage, Seq<char>)>,
)
    requires
        crate::guest::built_register(m, box_offset, bx, els, name, version, systems),
    ensures
        crate::host::spec_read_register(m.data@, box_offset) == Ok::<
            crate::host::RegisterView,
            DecodeError,
        >(
            (crate::host::RegisterView {
                name,
                version,
                systems: Seq::new(
                    systems.len(),
                    |i: int|
                        crate::host::SystemView { stage: systems[i].0, name: systems[i].1 },
                ),
            }),
        ),
{
    let reg = bx.boxed;
    crate::codec::lemma_register_box_round_trip(bx);
    assert(register_box_of_bytes(
        m.data@.subrange(box_offset as int, box_offset + crate::codec::REGISTER_BOX_SIZE),
    ) == bx);
    lemma_string_round_trip(m, reg.name, name);
    lemma_string_round_trip(m, reg.version, version);
    lemma_built_systems_decode(m, box_offset, bx, els, name, version, systems, 0);
    let full = Seq::new(
        systems.len(),
        |i: int| crate::host::SystemView { stage: systems[i].0, name: systems[i].1 },
    );
    let from_zero = Seq::new(
        (els.len() - 0) as nat,
        |j: int| crate::host::SystemView { stage: systems[0 + j].0, name: systems[0 + j].1 },
    );
    assert(from_zero =~= full);
}

/// An empty freeable-element slice frees with exactly one deallocation
/// call — its backing buffer — and zero element-free calls.
pub proof fn lemma_empty_slice_single_free(sl: PluginSliceAlloc)
    ensures
        systems_free_calls(Seq::<PluginSystem>::empty()).len() == 0,
        slice_alloc_free_calls(sl, Seq::<PluginSystem>::empty()).len() == 1,
        slice_alloc_free_calls(sl, Seq::<PluginSystem>::empty())[0] == (FreeCall {
            offset: sl.elements,
            size: sl.layout.size,
            align: sl.layout.align,
        }),
{
}

} // verus!
