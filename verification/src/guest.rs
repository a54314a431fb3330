//! The guest-side encoder: construct-only.
//!
//! Building an owned value copies its bytes into a fresh guest allocation
//! and records that allocation's exact (size, align) pair as the value's
//! layout descriptor; the receiver on the host side later hands the same
//! pair back to the deallocation entry point. Building a transient
//! reference takes an existing byte range without copying or allocating;
//! it must not be kept past the call it was made for.
//!
//! Nothing in this module frees: the guest never releases what it has
//! handed to the host.

use vstd::prelude::*;
use vstd::string::StrSliceExecFns;
use vstd::string::StringSliceAdditionalSpecFns;
use vstd::utf8::encode_utf8;

use crate::codec::{
    encode_register_box, encode_system_rec, register_box_bytes, systems_bytes, u32s_bytes,
};
use crate::mem::{
    grew, lemma_grew_has_live, lemma_grew_preserves_bytes, lemma_grew_trans, AllocRecord,
    FreeError, GuestMem,
};
use crate::raw::{
    Layout, LogLevel, PluginBox, PluginRef, PluginRegister, PluginSlice, PluginSliceAlloc,
    PluginString, PluginSystem, SystemStage,
};

verus! {

/// Builds an owned string: copies the bytes of `s` into a fresh guest
/// allocation and records that allocation's own layout in the returned
/// record.
pub fn new_owned_string(mem: &mut GuestMem, s: &str) -> (r: PluginString)
    requires
        old(mem).wf(),
        old(mem).data@.len() + s.spec_bytes().len() + 2 <= u32::MAX,
    ensures
        final(mem).wf(),
        grew(*old(mem), *final(mem)),
        r.len == s.spec_bytes().len(),
        r.layout == (Layout { size: r.len, align: 1 }),
        final(mem).has_live(r.ptr, r.len, 1),
        old(mem).data@.len() <= r.ptr,
        r.ptr + r.len <= final(mem).data@.len(),
        final(mem).data@.subrange(r.ptr as int, r.ptr + r.len) == s.spec_bytes(),
        r.ptr < final(mem).data@.len(),
        final(mem).data@.len() <= old(mem).data@.len() + s.spec_bytes().len() + 1,
        final(mem).allocs@ == old(mem).allocs@.push(
            (AllocRecord { offset: r.ptr, size: r.len, align: 1, live: true }),
        ),
{
    let bytes = s.as_bytes_vec();
    let n: u32 = bytes.len() as u32;
    let ptr = mem.allocate(n, 1);
    let ghost m1 = *mem;
    mem.write_bytes(ptr, &bytes);
    proof {
        assert(mem.data@.subrange(0, old(mem).data@.len() as int) =~= old(mem).data@);
        assert(old(mem).allocs@.is_prefix_of(mem.allocs@)) by {
            assert(mem.allocs@.subrange(0, old(mem).allocs@.len() as int) =~= old(mem).allocs@);
        }
    }
    PluginString { ptr, len: n, layout: Layout { size: n, align: 1 } }
}

/// Builds a system record bound to `stage`, with an owned copy of `name`.
pub fn new_system(mem: &mut GuestMem, stage: SystemStage, name: &str) -> (r: PluginSystem)
    requires
        old(mem).wf(),
        old(mem).data@.len() + name.spec_bytes().len() + 2 <= u32::MAX,
    ensures
        final(mem).wf(),
        grew(*old(mem), *final(mem)),
        r.stage == stage,
        r.name.len == name.spec_bytes().len(),
        r.name.layout == (Layout { size: r.name.len, align: 1 }),
        final(mem).has_live(r.name.ptr, r.name.len, 1),
        old(mem).data@.len() <= r.name.ptr,
        r.name.ptr + r.name.len <= final(mem).data@.len(),
        final(mem).data@.subrange(r.name.ptr as int, r.name.ptr + r.name.len)
            == name.spec_bytes(),
        r.name.ptr < final(mem).data@.len(),
        final(mem).data@.len() <= old(mem).data@.len() + name.spec_bytes().len() + 1,
        final(mem).allocs@ == old(mem).allocs@.push(
            (AllocRecord { offset: r.name.ptr, size: r.name.len, align: 1, live: true }),
        ),
{
    let name_rec = new_owned_string(mem, name);
    PluginSystem { stage, name: name_rec }
}

/// Builds a plain slice of `u32` elements: copies the elements into a
/// fresh, 4-aligned guest buffer.
pub fn new_plain_slice(mem: &mut GuestMem, els: &Vec<u32>) -> (r: PluginSlice)
    requires
        old(mem).wf(),
        old(mem).data@.len() + 4 * els@.len() + 5 <= u32::MAX,
    ensures
        final(mem).wf(),
        grew(*old(mem), *final(mem)),
        r.len == els@.len(),
        r.layout == (Layout { size: (4 * els@.len()) as u32, align: 4 }),
        final(mem).has_live(r.elements, r.layout.size, 4),
        old(mem).data@.len() <= r.elements,
        r.elements + 4 * els@.len() <= final(mem).data@.len(),
        final(mem).data@.subrange(r.elements as int, r.elements + 4 * els@.len()) == u32s_bytes(
            els@,
        ),
        final(mem).allocs@ == old(mem).allocs@.push(
            (AllocRecord { offset: r.elements, size: r.layout.size, align: 4, live: true }),
        ),
{
    let n: usize = els.len();
    let mut buf: Vec<u8> = Vec::new();
    let mut i: usize = 0;
    while i < n
        invariant
            i <= n,
            n == els@.len(),
            4 * n + 5 <= u32::MAX,
            buf@.len() == 4 * i,
            buf@ == u32s_bytes(els@.subrange(0, i as int)),
        decreases n - i,
    {
        let mut chunk = vstd::bytes::u32_to_le_bytes(els[i]);
        buf.append(&mut chunk);
        proof {
            assert(els@.subrange(0, i + 1).drop_last() =~= els@.subrange(0, i as int));
            assert(els@.subrange(0, i + 1).last() == els@[i as int]);
        }
        i += 1;
    }
    proof {
        assert(els@.subrange(0, n as int) =~= els@);
    }
    let size: u32 = buf.len() as u32;
    let ptr = mem.allocate(size, 4);
    mem.write_bytes(ptr, &buf);
    proof {
        assert(mem.data@.subrange(0, old(mem).data@.len() as int) =~= old(mem).data@);
        assert(old(mem).allocs@.is_prefix_of(mem.allocs@)) by {
            assert(mem.allocs@.subrange(0, old(mem).allocs@.len() as int) =~= old(mem).allocs@);
        }
    }
    PluginSlice { len: n as u32, elements: ptr, layout: Layout { size, align: 4 } }
}

/// Builds a freeable-element slice out of system records that were already
/// built: copies the records into a fresh, 4-aligned guest buffer. The
/// elements' own name allocations are untouched; the new buffer is one
/// further allocation.
pub fn new_systems_slice(mem: &mut GuestMem, els: &Vec<PluginSystem>) -> (r: PluginSliceAlloc)
    requires
        old(mem).wf(),
        old(mem).data@.len() + 20 * els@.len() + 5 <= u32::MAX,
    ensures
        final(mem).wf(),
        grew(*old(mem), *final(mem)),
        r.len == els@.len(),
        r.layout == (Layout { size: (20 * els@.len()) as u32, align: 4 }),
        final(mem).has_live(r.elements, r.layout.size, 4),
        old(mem).data@.len() <= r.elements,
        r.elements + 20 * els@.len() <= final(mem).data@.len(),
        final(mem).data@.subrange(r.elements as int, r.elements + 20 * els@.len())
            == systems_bytes(els@),
        r.elements < final(mem).data@.len(),
        final(mem).data@.len() <= old(mem).data@.len() + 20 * els@.len() + 4,
        final(mem).allocs@ == old(mem).allocs@.push(
            (AllocRecord { offset: r.elements, size: r.layout.size, align: 4, live: true }),
        ),
{
    let n: usize = els.len();
    let mut buf: Vec<u8> = Vec::new();
    let mut i: usize = 0;
    while i < n
        invariant
            i <= n,
            n == els@.len(),
            20 * n + 5 <= u32::MAX,
            buf@.len() == 20 * i,
            buf@ == systems_bytes(els@.subrange(0, i as int)),
        decreases n - i,
    {
        let mut chunk = encode_system_rec(els[i]);
        buf.append(&mut chunk);
        proof {
            assert(els@.subrange(0, i + 1).drop_last() =~= els@.subrange(0, i as int));
            assert(els@.subrange(0, i + 1).last() == els@[i as int]);
        }
        i += 1;
    }
    proof {
        assert(els@.subrange(0, n as int) =~= els@);
    }
    let size: u32 = buf.len() as u32;
    let ptr = mem.allocate(size, 4);
    mem.write_bytes(ptr, &buf);
    proof {
        assert(mem.data@.subrange(0, old(mem).data@.len() as int) =~= old(mem).data@);
        assert(old(mem).allocs@.is_prefix_of(mem.allocs@)) by {
            assert(mem.allocs@.subrange(0, old(mem).allocs@.len() as int) =~= old(mem).allocs@);
        }
    }
    PluginSliceAlloc { len: n as u32, elements: ptr, layout: Layout { size, align: 4 } }
}

/// Boxes a registration record for the host: copies its 56-byte encoding,
/// together with the layout of that very container allocation, into a
/// fresh guest allocation, and returns the offset the guest hands back to
/// the host.
pub fn register_into_box(mem: &mut GuestMem, reg: PluginRegister) -> (r: (
    u32,
    PluginBox<PluginRegister>,
))
    requires
        old(mem).wf(),
        old(mem).data@.len() + 61 <= u32::MAX,
    ensures
        final(mem).wf(),
        grew(*old(mem), *final(mem)),
        r.1 == (PluginBox::<PluginRegister> {
            boxed: reg,
            layout: Layout { size: 56, align: 4 },
        }),
        final(mem).has_live(r.0, 56, 4),
        old(mem).data@.len() <= r.0,
        r.0 + 56 <= final(mem).data@.len(),
        final(mem).data@.subrange(r.0 as int, r.0 + 56) == register_box_bytes(r.1),
        r.0 < final(mem).data@.len(),
        final(mem).data@.len() <= old(mem).data@.len() + 60,
        final(mem).allocs@ == old(mem).allocs@.push(
            (AllocRecord { offset: r.0, size: 56, align: 4, live: true }),
        ),
{
    let bx = PluginBox { boxed: reg, layout: Layout { size: 56, align: 4 } };
    let buf = encode_register_box(bx);
    let ptr = mem.allocate(56, 4);
    mem.write_bytes(ptr, &buf);
    proof {
        assert(mem.data@.subrange(0, old(mem).data@.len() as int) =~= old(mem).data@);
        assert(old(mem).allocs@.is_prefix_of(mem.allocs@)) by {
            assert(mem.allocs@.subrange(0, old(mem).allocs@.len() as int) =~= old(mem).allocs@);
        }
    }
    (ptr, bx)
}

/// The linear-memory room the guest flow needs for the systems' names:
/// each name's encoding plus the allocator's slack for it.
pub open spec fn systems_name_bytes(systems: Seq<(SystemStage, Seq<char>)>) -> int
    decreases systems.len(),
{
    if systems.len() == 0 {
        0
    } else {
        systems_name_bytes(systems.drop_last()) + encode_utf8(systems.last().1).len() + 2
    }
}

/// The linear-memory room that is certain to suffice for `build_register`:
/// the encodings of the name, the version and every system name, the
/// systems buffer, and slack for the allocator's padding and the
/// container.
pub open spec fn register_build_room(
    name: Seq<char>,
    version: Seq<char>,
    systems: Seq<(SystemStage, Seq<char>)>,
) -> int {
    encode_utf8(name).len() + encode_utf8(version).len() + systems_name_bytes(systems) + 20
        * systems.len() + 70
}

/// The room for the systems' names is never negative.
proof fn lemma_systems_name_bytes_nonneg(systems: Seq<(SystemStage, Seq<char>)>)
    ensures
        systems_name_bytes(systems) >= 0,
    decreases systems.len(),
{
    if systems.len() > 0 {
        lemma_systems_name_bytes_nonneg(systems.drop_last());
    }
}

/// The room for the systems' names covers every prefix, and the element
/// right after a prefix.
proof fn lemma_systems_name_bytes_mono(systems: Seq<(SystemStage, Seq<char>)>, j: int)
    requires
        0 <= j <= systems.len(),
    ensures
        systems_name_bytes(systems) >= systems_name_bytes(systems.subrange(0, j)),
        j < systems.len() ==> systems_name_bytes(systems) >= systems_name_bytes(
            systems.subrange(0, j),
        ) + encode_utf8(systems[j].1).len() + 2,
    decreases systems.len() - j,
{
    if j == systems.len() {
        assert(systems.subrange(0, j) =~= systems);
    } else {
        lemma_systems_name_bytes_mono(systems, j + 1);
        assert(systems.subrange(0, j + 1).drop_last() =~= systems.subrange(0, j));
        assert(systems.subrange(0, j + 1).last() == systems[j]);
    }
}

/// A registration record as the guest built it into `m`: the boxed record
/// and every owned sub-value sit at their recorded offsets, holding
/// exactly the encodings of the given name, version and systems.
pub open spec fn built_register(
    m: GuestMem,
    box_offset: u32,
    bx: PluginBox<PluginRegister>,
    els: Seq<PluginSystem>,
    name: Seq<char>,
    version: Seq<char>,
    systems: Seq<(SystemStage, Seq<char>)>,
) -> bool {
    let reg = bx.boxed;
    &&& m.wf()
    &&& bx.layout == (Layout { size: 56, align: 4 })
    &&& box_offset + 56 <= m.data@.len()
    &&& m.data@.subrange(box_offset as int, box_offset + 56) == register_box_bytes(bx)
    &&& reg.name.ptr + reg.name.len <= m.data@.len()
    &&& m.data@.subrange(reg.name.ptr as int, reg.name.ptr + reg.name.len) == encode_utf8(name)
    &&& reg.version.ptr + reg.version.len <= m.data@.len()
    &&& m.data@.subrange(reg.version.ptr as int, reg.version.ptr + reg.version.len)
        == encode_utf8(version)
    &&& els.len() == systems.len()
    &&& reg.systems.len == els.len()
    &&& reg.systems.elements + 20 * els.len() <= m.data@.len()
    &&& m.data@.subrange(reg.systems.elements as int, reg.systems.elements + 20 * els.len())
        == systems_bytes(els)
    &&& forall|k: int| 0 <= k < els.len() ==> (#[trigger] els[k]).stage == systems[k].0
    &&& forall|k: int|
        0 <= k < els.len() ==> (#[trigger] els[k]).name.ptr + els[k].name.len <= m.data@.len()
    &&& forall|k: int|
        0 <= k < els.len() ==> m.data@.subrange(
            (#[trigger] els[k]).name.ptr as int,
            els[k].name.ptr + els[k].name.len,
        ) == encode_utf8(systems[k].1)
}

/// The full guest flow: builds an owned copy of the name, the version and
/// every system, gathers them into a boxed registration record, and
/// returns the offset the guest hands back to the host. Returns `None`
/// when the 32-bit memory would run out of room; otherwise the built
/// record is decodable back to exactly these inputs and owns one distinct
/// live allocation per deallocation call it owes, so the free protocol
/// releases each exactly once.
#[verifier::loop_isolation(false)]
#[verifier::rlimit(80)]
pub fn build_register(
    mem: &mut GuestMem,
    name: &str,
    version: &str,
    systems: &Vec<(SystemStage, String)>,
) -> (r: Option<(u32, PluginBox<PluginRegister>, Vec<PluginSystem>)>)
    requires
        old(mem).wf(),
    ensures
        final(mem).wf(),
        grew(*old(mem), *final(mem)),
        r matches Some(t) ==> {
            &&& built_register(
                *final(mem),
                t.0,
                t.1,
                t.2@,
                name@,
                version@,
                systems@.map_values(|p: (SystemStage, String)| (p.0, p.1@)),
            )
            &&& crate::host::free_calls_owned(
                *final(mem),
                crate::host::register_box_free_calls(t.1, t.0, t.2@),
            )
        },
        old(mem).data@.len() + register_build_room(
            name@,
            version@,
            systems@.map_values(|p: (SystemStage, String)| (p.0, p.1@)),
        ) <= u32::MAX ==> r is Some,
{
    let m: u128 = u32::MAX as u128;
    let ghost views = systems@.map_values(|p: (SystemStage, String)| (p.0, p.1@));
    let ghost room = register_build_room(name@, version@, views);
    let name_bytes = name.as_bytes_vec();
    if mem.data.len() as u128 + name_bytes.len() as u128 + 2 > m {
        proof {
            crate::mem::lemma_grew_refl(*mem);
            lemma_systems_name_bytes_nonneg(views);
            assert(old(mem).data@.len() + room > u32::MAX);
        }
        return None;
    }
    let name_rec = new_owned_string(mem, name);
    let ghost m_n = *mem;
    let version_bytes = version.as_bytes_vec();
    if mem.data.len() as u128 + version_bytes.len() as u128 + 2 > m {
        proof {
            lemma_systems_name_bytes_nonneg(views);
            assert(old(mem).data@.len() + room > u32::MAX);
        }
        return None;
    }
    let version_rec = new_owned_string(mem, version);
    let ghost m_nv = *mem;
    proof {
        lemma_grew_has_live(m_n, m_nv, name_rec.ptr, name_rec.len, 1);
        lemma_grew_trans(*old(mem), m_n, m_nv);
        crate::mem::lemma_grew_refl(m_nv);
    }
    let n: usize = systems.len();
    let mut els: Vec<PluginSystem> = Vec::new();
    let mut i: usize = 0;
    while i < n
        invariant
            i <= n,
            els@.len() == i,
            mem.wf(),
            grew(m_nv, *mem),
            mem.data@.len() <= m_nv.data@.len() + systems_name_bytes(
                views.subrange(0, i as int),
            ),
            mem.has_live(name_rec.ptr, name_rec.len, 1),
            mem.has_live(version_rec.ptr, version_rec.len, 1),
            forall|k: int|
                0 <= k < i ==> mem.has_live(
                    (#[trigger] els@[k]).name.ptr,
                    els@[k].name.len,
                    1,
                ),
            forall|k: int|
                0 <= k < i ==> (#[trigger] els@[k]).name.layout == (Layout {
                    size: els@[k].name.len,
                    align: 1,
                }),
            forall|k: int| 0 <= k < i ==> (#[trigger] els@[k]).stage == views[k].0,
            forall|k: int|
                0 <= k < i ==> (#[trigger] els@[k]).name.ptr + els@[k].name.len
                    <= mem.data@.len(),
            forall|k: int| 0 <= k < i ==> (#[trigger] els@[k]).name.ptr < mem.data@.len(),
            forall|k: int|
                0 <= k < i ==> mem.data@.subrange(
                    (#[trigger] els@[k]).name.ptr as int,
                    els@[k].name.ptr + els@[k].name.len,
                ) == encode_utf8(views[k].1),
            forall|k: int| 0 <= k < i ==> m_nv.data@.len() <= (#[trigger] els@[k]).name.ptr,
            forall|k: int, l: int|
                #![trigger els@[k], els@[l]]
                0 <= k < l < i ==> els@[k].name.ptr < els@[l].name.ptr,
        decreases n - i,
    {
        let sys_name_bytes = systems[i].1.as_str().as_bytes_vec();
        if mem.data.len() as u128 + sys_name_bytes.len() as u128 + 2 > m {
            proof {
                lemma_grew_trans(*old(mem), m_nv, *mem);
                lemma_systems_name_bytes_nonneg(views.subrange(0, i as int));
                lemma_systems_name_bytes_mono(views, i as int);
                assert(views[i as int].1 == systems@[i as int].1@);
                assert(old(mem).data@.len() + room > u32::MAX);
            }
            return None;
        }
        let ghost m_prev = *mem;
        let sys = new_system(mem, systems[i].0, systems[i].1.as_str());
        proof {
            lemma_grew_trans(m_nv, m_prev, *mem);
            lemma_grew_has_live(m_prev, *mem, name_rec.ptr, name_rec.len, 1);
            lemma_grew_has_live(m_prev, *mem, version_rec.ptr, version_rec.len, 1);
            assert forall|k: int| 0 <= k < i implies mem.has_live(
                (#[trigger] els@[k]).name.ptr,
                els@[k].name.len,
                1,
            ) by {
                lemma_grew_has_live(m_prev, *mem, els@[k].name.ptr, els@[k].name.len, 1);
            }
            assert forall|k: int|
                0 <= k < i implies mem.data@.subrange(
                (#[trigger] els@[k]).name.ptr as int,
                els@[k].name.ptr + els@[k].name.len,
            ) == encode_utf8(views[k].1) by {
                lemma_grew_preserves_bytes(
                    m_prev,
                    *mem,
                    els@[k].name.ptr as int,
                    els@[k].name.ptr + els@[k].name.len,
                );
                assert(m_prev.data@.subrange(
                    els@[k].name.ptr as int,
                    els@[k].name.ptr + els@[k].name.len,
                ) == encode_utf8(views[k].1));
            }
            assert(views[i as int].0 == systems@[i as int].0);
            assert(views[i as int].1 == systems@[i as int].1@);
            assert(views.subrange(0, i + 1).drop_last() =~= views.subrange(0, i as int));
            assert(views.subrange(0, i + 1).last() == views[i as int]);
        }
        els.push(sys);
        i += 1;
    }
    proof {
        assert(views.subrange(0, n as int) =~= views);
    }
    let ghost m_sys = *mem;
    proof {
        lemma_grew_trans(*old(mem), m_nv, m_sys);
    }
    if mem.data.len() as u128 + 20 * (n as u128) + 5 > m {
        proof {
            assert(old(mem).data@.len() + room > u32::MAX);
        }
        return None;
    }
    let slice_rec = new_systems_slice(mem, &els);
    let ghost m_sl = *mem;
    proof {
        lemma_grew_has_live(m_sys, m_sl, name_rec.ptr, name_rec.len, 1);
        lemma_grew_has_live(m_sys, m_sl, version_rec.ptr, version_rec.len, 1);
        assert forall|k: int| 0 <= k < els@.len() implies mem.has_live(
            (#[trigger] els@[k]).name.ptr,
            els@[k].name.len,
            1,
        ) by {
            lemma_grew_has_live(m_sys, m_sl, els@[k].name.ptr, els@[k].name.len, 1);
        }
    }
    let reg = PluginRegister { name: name_rec, version: version_rec, systems: slice_rec };
    proof {
        lemma_grew_trans(*old(mem), m_sys, m_sl);
    }
    if mem.data.len() as u128 + 61 > m {
        proof {
            assert(old(mem).data@.len() + room > u32::MAX);
        }
        return None;
    }
    let ghost m_before_box = *mem;
    let (box_offset, bx) = register_into_box(mem, reg);
    proof {
        lemma_grew_trans(m_nv, m_sys, m_sl);
        lemma_grew_trans(m_n, m_nv, m_sl);
        lemma_grew_trans(*old(mem), m_sl, *mem);
        lemma_grew_trans(m_n, m_sl, *mem);
        lemma_grew_trans(m_nv, m_sl, *mem);
        lemma_grew_trans(m_sys, m_sl, *mem);
        lemma_grew_has_live(m_before_box, *mem, name_rec.ptr, name_rec.len, 1);
        lemma_grew_has_live(m_before_box, *mem, version_rec.ptr, version_rec.len, 1);
        lemma_grew_has_live(
            m_before_box,
            *mem,
            slice_rec.elements,
            slice_rec.layout.size,
            4,
        );
        assert forall|k: int| 0 <= k < els@.len() implies mem.has_live(
            (#[trigger] els@[k]).name.ptr,
            els@[k].name.len,
            1,
        ) by {
            lemma_grew_has_live(m_before_box, *mem, els@[k].name.ptr, els@[k].name.len, 1);
        }
        // Every stored byte range survives the later allocations.
        assert forall|k: int|
            0 <= k < els@.len() implies mem.data@.subrange(
            (#[trigger] els@[k]).name.ptr as int,
            els@[k].name.ptr + els@[k].name.len,
        ) == encode_utf8(views[k].1) by {
            lemma_grew_preserves_bytes(
                m_sys,
                *mem,
                els@[k].name.ptr as int,
                els@[k].name.ptr + els@[k].name.len,
            );
        }
        lemma_grew_preserves_bytes(m_n, *mem, name_rec.ptr as int, name_rec.ptr + name_rec.len);
        lemma_grew_preserves_bytes(
            m_nv,
            *mem,
            version_rec.ptr as int,
            version_rec.ptr + version_rec.len,
        );
        lemma_grew_preserves_bytes(
            m_sl,
            *mem,
            slice_rec.elements as int,
            slice_rec.elements + 20 * els@.len(),
        );
        // The deallocation call offsets are strictly increasing, hence
        // pairwise distinct, and each names a live allocation.
        let calls = crate::host::register_box_free_calls(bx, box_offset, els@);
        crate::laws::lemma_free_order(bx, box_offset, els@);
        assert forall|a: int|
            0 <= a < calls.len() implies mem.has_live(
            (#[trigger] calls[a]).offset,
            calls[a].size,
            calls[a].align,
        ) by {
            let nn = els@.len() as int;
            if a == 0 {
                assert(calls[0].offset == name_rec.ptr && calls[0].size == name_rec.len
                    && calls[0].align == 1);
            } else if a == 1 {
                assert(calls[1].offset == version_rec.ptr && calls[1].size == version_rec.len
                    && calls[1].align == 1);
            } else if a < 2 + nn {
                let k = a - 2;
                assert(calls[a] == crate::host::register_box_free_calls(
                    bx,
                    box_offset,
                    els@,
                )[2 + k]);
                assert(els@[k].name.layout == (Layout { size: els@[k].name.len, align: 1 }));
                assert(calls[a].offset == els@[k].name.ptr && calls[a].size == els@[k].name.len
                    && calls[a].align == 1);
                assert(mem.has_live(els@[k].name.ptr, els@[k].name.len, 1));
            } else if a == 2 + nn {
                assert(calls[a].offset == slice_rec.elements && calls[a].size
                    == slice_rec.layout.size && calls[a].align == 4);
            } else {
                assert(a == 3 + nn);
                assert(calls[a].offset == box_offset && calls[a].size == 56 && calls[a].align
                    == 4);
                assert(mem.has_live(box_offset, 56, 4));
            }
        }
        assert forall|a: int, b: int|
            #![trigger calls[a], calls[b]]
            0 <= a < b < calls.len() implies calls[a].offset != calls[b].offset by {
            let nn = els@.len() as int;
            let off = |x: int|
                if x == 0 {
                    name_rec.ptr
                } else if x == 1 {
                    version_rec.ptr
                } else if x < 2 + nn {
                    els@[x - 2].name.ptr
                } else if x == 2 + nn {
                    slice_rec.elements
                } else {
                    box_offset
                };
            assert(calls[a].offset == off(a));
            assert(calls[b].offset == off(b));
            assert(name_rec.ptr < m_n.data@.len());
            assert(version_rec.ptr < m_nv.data@.len());
            if 2 <= a < 2 + nn && 2 <= b < 2 + nn {
                assert(els@[a - 2].name.ptr < els@[b - 2].name.ptr);
            } else {
                assert(off(a) < off(b));
            }
        }
    }
    Some((box_offset, bx, els))
}

impl PluginString {
    /// Builds a transient string reference over an existing byte range:
    /// no copy, no allocation, nothing for the receiver to free. The
    /// reference must not outlive the call it is handed to.
    pub fn from_borrow(mem: &GuestMem, offset: u32, len: u32) -> (r: PluginRef<PluginString>)
        requires
            offset + len <= mem.data@.len(),
        ensures
            r.0.ptr == offset,
            r.0.len == len,
            r.0.layout == (Layout { size: len, align: 1 }),
    {
        PluginRef(PluginString { ptr: offset, len, layout: Layout { size: len, align: 1 } })
    }
}

/// The pair the guest hands to the host's logging import: the severity's
/// wire byte and a transient reference to the message bytes. Nothing is
/// allocated; the host must not retain either past the call.
pub fn prepare_log(mem: &GuestMem, level: LogLevel, offset: u32, len: u32) -> (r: (
    u8,
    PluginRef<PluginString>,
))
    requires
        offset + len <= mem.data@.len(),
    ensures
        r.0 == level.as_byte(),
        r.1.0.ptr == offset,
        r.1.0.len == len,
        r.1.0.layout == (Layout { size: len, align: 1 }),
{
    let string_ref = PluginString::from_borrow(mem, offset, len);
    (level.to_byte(), string_ref)
}

/// The guest-exported deallocation entry point: takes an offset and the
/// transported (size, align) pair, reconstructs the allocation layout and
/// releases the region through the guest's own allocator. The host only
/// ever calls this with pairs this protocol itself produced.
pub fn plugin_free(mem: &mut GuestMem, offset: u32, size: u32, align: u32) -> (r: Result<
    (),
    FreeError,
>)
    requires
        old(mem).wf(),
    ensures
        final(mem).wf(),
        final(mem).data@ == old(mem).data@,
        r is Ok <==> old(mem).has_live(offset, size, align),
        r is Ok ==> {
            &&& final(mem).free_log@ == old(mem).free_log@.push(
                (crate::mem::FreeCall { offset, size, align }),
            )
            &&& final(mem).allocs@.len() == old(mem).allocs@.len()
            &&& forall|i: int|
                0 <= i < final(mem).allocs@.len() ==> #[trigger] final(mem).allocs@[i] == (
                if old(mem).allocs@[i].live && old(mem).allocs@[i].offset == offset {
                    crate::mem::kill(old(mem).allocs@[i])
                } else {
                    old(mem).allocs@[i]
                })
        },
        r is Err ==> final(mem).allocs@ == old(mem).allocs@ && final(mem).free_log@ == old(
            mem,
        ).free_log@,
        r == Err::<(), FreeError>(FreeError::NotAllocated) <==> !old(mem).live_at(offset),
        r == Err::<(), FreeError>(FreeError::WrongLayout) <==> old(mem).live_at(offset) && !old(
            mem,
        ).has_live(offset, size, align),
{
    mem.dealloc(offset, size, align)
}

} // verus!
