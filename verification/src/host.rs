//! The host-side decoder and deallocator.
//!
//! Reading never mutates guest memory; it resolves 32-bit offsets into the
//! byte image, interprets fixed-layout records, copies string bytes out and
//! validates them as UTF-8. Freeing is the separate, explicit step: it
//! walks a decoded composite value and issues one deallocation call per
//! owned allocation, leaves first, each with exactly the layout descriptor
//! that crossed the boundary with it.

use vstd::prelude::*;
use vstd::utf8::{decode_utf8, valid_utf8};

use crate::codec::{
    decode_register_box, decode_system_rec, register_box_of_bytes, system_rec_of_bytes,
    DecodeError, REGISTER_BOX_SIZE, SYSTEM_REC_SIZE,
};
use crate::mem::{FreeCall, FreeError, GuestMem};
use crate::raw::{
    LogLevel, PluginBox, PluginRegister, PluginSlice, PluginSliceAlloc, PluginString, PluginSystem,
};

verus! {

// ---------------------------------------------------------------------------
// Reading encoded values out of guest memory
// ---------------------------------------------------------------------------

/// What reading a string record yields from a given byte image: the
/// decoded characters, or the error — out of bounds before UTF-8.
pub open spec fn spec_read_string(data: Seq<u8>, s: PluginString) -> Result<
    Seq<char>,
    DecodeError,
> {
    if s.ptr + s.len > data.len() {
        Err(DecodeError::OutOfBounds)
    } else if !valid_utf8(data.subrange(s.ptr as int, s.ptr + s.len)) {
        Err(DecodeError::InvalidUtf8)
    } else {
        Ok(decode_utf8(data.subrange(s.ptr as int, s.ptr + s.len)))
    }
}

/// Copies a string's bytes out of guest memory and validates them;
/// succeeds exactly when the record lies in bounds and its bytes are valid
/// UTF-8, and then returns exactly their decoding.
pub fn read_string_value(mem: &GuestMem, s: &PluginString) -> (r: Result<String, DecodeError>)
    ensures
        r matches Ok(st) ==> spec_read_string(mem.data@, *s) == Ok::<Seq<char>, DecodeError>(st@),
        r matches Err(e) ==> spec_read_string(mem.data@, *s) == Err::<Seq<char>, DecodeError>(e),
        r is Ok <==> spec_read_string(mem.data@, *s) is Ok,
{
    if (s.ptr as u64) + (s.len as u64) > mem.data.len() as u64 {
        return Err(DecodeError::OutOfBounds);
    }
    let bytes = mem.read_bytes(s.ptr, s.len);
    match bytes_to_string(bytes) {
        Some(st) => Ok(st),
        None => Err(DecodeError::InvalidUtf8),
    }
}

/// Relies on `String::from_utf8`: it succeeds exactly on valid UTF-8 and
/// then holds exactly the characters those bytes encode.
#[verifier::external_body]
pub(crate) fn bytes_to_string(v: Vec<u8>) -> (r: Option<String>)
    ensures
        r is Some <==> valid_utf8(v@),
        r matches Some(st) ==> st@ == decode_utf8(v@),
{
    match String::from_utf8(v) {
        Ok(st) => Some(st),
        Err(_) => None,
    }
}

/// Reads the boxed registration record a guest handed back as an offset;
/// succeeds exactly when its 56 bytes lie in bounds.
pub fn read_register_box(mem: &GuestMem, offset: u32) -> (r: Result<
    PluginBox<PluginRegister>,
    DecodeError,
>)
    ensures
        r is Ok <==> offset + REGISTER_BOX_SIZE <= mem.data@.len(),
        r matches Ok(bx) ==> bx == register_box_of_bytes(
            mem.data@.subrange(offset as int, offset + REGISTER_BOX_SIZE),
        ),
        r matches Err(e) ==> e == DecodeError::OutOfBounds,
{
    if (offset as u64) + (REGISTER_BOX_SIZE as u64) > mem.data.len() as u64 {
        return Err(DecodeError::OutOfBounds);
    }
    let bytes = mem.read_bytes(offset, REGISTER_BOX_SIZE as u32);
    Ok(decode_register_box(bytes.as_slice()))
}

/// Reads the elements of a plain `u32` slice; succeeds exactly when the
/// buffer lies in bounds, and then yields each element's little-endian
/// decoding, in index order.
pub fn read_plain_slice(mem: &GuestMem, s: &PluginSlice) -> (r: Result<Vec<u32>, DecodeError>)
    requires
        mem.data@.len() <= u32::MAX,
    ensures
        r is Ok <==> s.elements + 4 * s.len <= mem.data@.len(),
        r matches Ok(v) ==> v@.len() == s.len && forall|i: int|
            0 <= i < s.len ==> v@[i] == vstd::bytes::spec_u32_from_le_bytes(
                mem.data@.subrange(s.elements + 4 * i, s.elements + 4 * i + 4),
            ),
        r matches Err(e) ==> e == DecodeError::OutOfBounds,
{
    if (s.elements as u64) + 4 * (s.len as u64) > mem.data.len() as u64 {
        return Err(DecodeError::OutOfBounds);
    }
    let n: u32 = s.len;
    let mut out: Vec<u32> = Vec::new();
    let mut i: u32 = 0;
    while i < n
        invariant
            i <= n,
            n == s.len,
            s.elements + 4 * n <= mem.data@.len(),
            mem.data@.len() <= u32::MAX,
            out@.len() == i,
            forall|k: int|
                0 <= k < i ==> out@[k] == vstd::bytes::spec_u32_from_le_bytes(
                    mem.data@.subrange(s.elements + 4 * k, s.elements + 4 * k + 4),
                ),
        decreases n - i,
    {
        let off: u32 = s.elements + 4 * i;
        let chunk = mem.read_bytes(off, 4);
        out.push(vstd::bytes::u32_from_le_bytes(chunk.as_slice()));
        i += 1;
    }
    Ok(out)
}

/// Reads the raw element records of a freeable-element slice; succeeds
/// exactly when the buffer lies in bounds and every element's stage byte
/// is valid.
pub fn read_systems(mem: &GuestMem, s: &PluginSliceAlloc) -> (r: Result<
    Vec<PluginSystem>,
    DecodeError,
>)
    requires
        mem.data@.len() <= u32::MAX,
    ensures
        !(s.elements + SYSTEM_REC_SIZE * s.len <= mem.data@.len()) ==> r == Err::<
            Vec<PluginSystem>,
            DecodeError,
        >(DecodeError::OutOfBounds),
        r matches Ok(v) ==> {
            &&& s.elements + SYSTEM_REC_SIZE * s.len <= mem.data@.len()
            &&& v@.len() == s.len
            &&& forall|i: int|
                0 <= i < s.len ==> system_rec_of_bytes(
                    mem.data@.subrange(
                        s.elements + SYSTEM_REC_SIZE * i,
                        s.elements + SYSTEM_REC_SIZE * i + SYSTEM_REC_SIZE,
                    ),
                ) == Ok::<PluginSystem, DecodeError>(v@[i])
        },
        (s.elements + SYSTEM_REC_SIZE * s.len <= mem.data@.len() && r is Err) ==> r == Err::<
            Vec<PluginSystem>,
            DecodeError,
        >(DecodeError::InvalidStage) && exists|i: int|
            0 <= i < s.len && system_rec_of_bytes(
                #[trigger] mem.data@.subrange(
                    s.elements + SYSTEM_REC_SIZE * i,
                    s.elements + SYSTEM_REC_SIZE * i + SYSTEM_REC_SIZE,
                ),
            ) is Err,
        (s.elements + SYSTEM_REC_SIZE * s.len <= mem.data@.len() && forall|i: int|
            0 <= i < s.len ==> system_rec_of_bytes(
                #[trigger] mem.data@.subrange(
                    s.elements + SYSTEM_REC_SIZE * i,
                    s.elements + SYSTEM_REC_SIZE * i + SYSTEM_REC_SIZE,
                ),
            ) is Ok) ==> r is Ok,
{
    if (s.elements as u64) + (SYSTEM_REC_SIZE as u64) * (s.len as u64) > mem.data.len() as u64 {
        return Err(DecodeError::OutOfBounds);
    }
    let n: u32 = s.len;
    let mut out: Vec<PluginSystem> = Vec::new();
    let mut i: u32 = 0;
    while i < n
        invariant
            i <= n,
            n == s.len,
            s.elements + SYSTEM_REC_SIZE * n <= mem.data@.len(),
            mem.data@.len() <= u32::MAX,
            out@.len() == i,
            forall|k: int|
                0 <= k < i ==> system_rec_of_bytes(
                    mem.data@.subrange(
                        s.elements + SYSTEM_REC_SIZE * k,
                        s.elements + SYSTEM_REC_SIZE * k + SYSTEM_REC_SIZE,
                    ),
                ) == Ok::<PluginSystem, DecodeError>(out@[k as int]),
        decreases n - i,
    {
        let off: u32 = s.elements + (SYSTEM_REC_SIZE as u32) * i;
        let chunk = mem.read_bytes(off, SYSTEM_REC_SIZE as u32);
        match decode_system_rec(chunk.as_slice()) {
            Ok(sys) => {
                out.push(sys);
            },
            Err(_) => {
                return Err(DecodeError::InvalidStage);
            },
        }
        i += 1;
    }
    Ok(out)
}

// ---------------------------------------------------------------------------
// The free protocol: which deallocation calls a composite value owes
// ---------------------------------------------------------------------------

/// Freeing a string: one deallocation call, against the string's own
/// buffer, with the string's own layout descriptor.
pub open spec fn string_free_calls(s: PluginString) -> Seq<FreeCall> {
    seq![FreeCall { offset: s.ptr, size: s.layout.size, align: s.layout.align }]
}

/// Freeing a plain slice: one deallocation call for the backing buffer.
pub open spec fn slice_free_calls(s: PluginSlice) -> Seq<FreeCall> {
    seq![FreeCall { offset: s.elements, size: s.layout.size, align: s.layout.align }]
}

/// Freeing a system record: its owned name, nothing else.
pub open spec fn system_free_calls(s: PluginSystem) -> Seq<FreeCall> {
    string_free_calls(s.name)
}

/// Freeing the elements of a freeable-element slice, in ascending index
/// order.
pub open spec fn systems_free_calls(els: Seq<PluginSystem>) -> Seq<FreeCall>
    decreases els.len(),
{
    if els.len() == 0 {
        Seq::empty()
    } else {
        systems_free_calls(els.drop_last()) + system_free_calls(els.last())
    }
}

/// Freeing a freeable-element slice: every element first, in ascending
/// index order, then one call for the backing buffer itself.
pub open spec fn slice_alloc_free_calls(sl: PluginSliceAlloc, els: Seq<PluginSystem>) -> Seq<
    FreeCall,
> {
    systems_free_calls(els) + seq![
        FreeCall { offset: sl.elements, size: sl.layout.size, align: sl.layout.align },
    ]
}

/// Freeing a registration record: its owned fields in declared order —
/// name, version, then the systems slice (elements before buffer).
pub open spec fn register_free_calls(reg: PluginRegister, els: Seq<PluginSystem>) -> Seq<
    FreeCall,
> {
    string_free_calls(reg.name) + string_free_calls(reg.version) + slice_alloc_free_calls(
        reg.systems,
        els,
    )
}

/// Freeing a boxed registration record: the record's own calls, then one
/// final call for the container allocation, with the container's own
/// layout descriptor.
pub open spec fn register_box_free_calls(
    bx: PluginBox<PluginRegister>,
    box_offset: u32,
    els: Seq<PluginSystem>,
) -> Seq<FreeCall> {
    register_free_calls(bx.boxed, els) + seq![
        FreeCall { offset: box_offset, size: bx.layout.size, align: bx.layout.align },
    ]
}

/// Every call names a distinct live allocation, with exactly that
/// allocation's own (size, align) pair: the caller obligation under which
/// the free protocol releases each allocation exactly once.
pub open spec fn free_calls_owned(m: GuestMem, calls: Seq<FreeCall>) -> bool {
    &&& forall|i: int|
        0 <= i < calls.len() ==> m.has_live(
            (#[trigger] calls[i]).offset,
            calls[i].size,
            calls[i].align,
        )
    &&& forall|i: int, j: int|
        #![trigger calls[i], calls[j]]
        0 <= i < j < calls.len() ==> calls[i].offset != calls[j].offset
}

/// Whether some call in the sequence names this offset.
pub open spec fn calls_hit(calls: Seq<FreeCall>, offset: u32) -> bool {
    exists|i: int| 0 <= i < calls.len() && (#[trigger] calls[i]).offset == offset
}

/// The second memory is the first after exactly this sequence of
/// deallocation calls: no byte changed, the log grew by exactly the
/// sequence, and an allocation is dead afterwards precisely if it was
/// dead before or some call named its offset.
pub open spec fn freed_exactly(m1: GuestMem, m2: GuestMem, calls: Seq<FreeCall>) -> bool {
    &&& m2.data@ == m1.data@
    &&& m2.free_log@ == m1.free_log@ + calls
    &&& m2.allocs@.len() == m1.allocs@.len()
    &&& forall|k: int|
        0 <= k < m2.allocs@.len() ==> #[trigger] m2.allocs@[k] == (if m1.allocs@[k].live
            && calls_hit(calls, m1.allocs@[k].offset) {
            crate::mem::kill(m1.allocs@[k])
        } else {
            m1.allocs@[k]
        })
}

/// Issues a sequence of deallocation calls in order. Under the ownership
/// obligation every call succeeds; afterwards exactly the named
/// allocations are dead, every other allocation and every byte is
/// untouched, and the log has grown by exactly this sequence.
pub fn issue_free_calls(mem: &mut GuestMem, calls: &Vec<FreeCall>) -> (r: Result<(), FreeError>)
    requires
        old(mem).wf(),
        free_calls_owned(*old(mem), calls@),
    ensures
        final(mem).wf(),
        r is Ok,
        freed_exactly(*old(mem), *final(mem), calls@),
{
    let n: usize = calls.len();
    let mut t: usize = 0;
    while t < n
        invariant
            t <= n,
            n == calls@.len(),
            mem.wf(),
            free_calls_owned(*old(mem), calls@),
            mem.data@ == old(mem).data@,
            mem.free_log@ == old(mem).free_log@ + calls@.subrange(0, t as int),
            mem.allocs@.len() == old(mem).allocs@.len(),
            forall|k: int|
                0 <= k < mem.allocs@.len() ==> #[trigger] mem.allocs@[k] == (if old(
                    mem,
                ).allocs@[k].live && calls_hit(calls@.subrange(0, t as int), old(
                    mem,
                ).allocs@[k].offset) {
                    crate::mem::kill(old(mem).allocs@[k])
                } else {
                    old(mem).allocs@[k]
                }),
        decreases n - t,
    {
        let c = calls[t];
        proof {
            // The allocation this call names is still live: its witness in
            // the old table is untouched, because no earlier call named the
            // same offset.
            let w = choose|w: int|
                0 <= w < old(mem).allocs@.len() && {
                    let a = #[trigger] old(mem).allocs@[w];
                    a.live && a.offset == c.offset && a.size == c.size && a.align == c.align
                };
            assert(old(mem).has_live(c.offset, c.size, c.align));
            if calls_hit(calls@.subrange(0, t as int), old(mem).allocs@[w].offset) {
                let h = choose|h: int|
                    0 <= h < t && (#[trigger] calls@.subrange(0, t as int)[h]).offset == old(
                        mem,
                    ).allocs@[w].offset;
                assert(calls@[h].offset == calls@[t as int].offset);
                assert(false);
            }
            assert(mem.allocs@[w] == old(mem).allocs@[w]);
            assert(mem.has_live(c.offset, c.size, c.align));
        }
        let ghost m_before = *mem;
        let res = mem.dealloc(c.offset, c.size, c.align);
        proof {
            assert(res is Ok);
            assert(mem.free_log@ =~= old(mem).free_log@ + calls@.subrange(0, t + 1));
            m_before.lemma_offsets_distinct();
            assert forall|k: int| 0 <= k < mem.allocs@.len() implies #[trigger] mem.allocs@[k]
                == (if old(mem).allocs@[k].live && calls_hit(
                calls@.subrange(0, t + 1),
                old(mem).allocs@[k].offset,
            ) {
                crate::mem::kill(old(mem).allocs@[k])
            } else {
                old(mem).allocs@[k]
            }) by {
                let a_old = old(mem).allocs@[k];
                if m_before.allocs@[k].live && m_before.allocs@[k].offset == c.offset {
                    assert(calls@.subrange(0, t + 1)[t as int].offset == a_old.offset);
                    assert(calls_hit(calls@.subrange(0, t + 1), a_old.offset));
                } else {
                    if calls_hit(calls@.subrange(0, t + 1), a_old.offset) {
                        let h = choose|h: int|
                            0 <= h <= t && (#[trigger] calls@.subrange(0, t + 1)[h]).offset
                                == a_old.offset;
                        if h < t {
                            assert(calls_hit(calls@.subrange(0, t as int), a_old.offset)) by {
                                assert(calls@.subrange(0, t as int)[h] == calls@[h]);
                            }
                        } else {
                            assert(a_old.offset == c.offset);
                            if a_old.live && !calls_hit(
                                calls@.subrange(0, t as int),
                                a_old.offset,
                            ) {
                                assert(m_before.allocs@[k] == a_old);
                                assert(false);
                            }
                        }
                    }
                }
            }
        }
        match res {
            Ok(_) => {},
            Err(e) => {
                return Err(e);
            },
        }
        t += 1;
    }
    proof {
        assert(calls@.subrange(0, n as int) =~= calls@);
    }
    Ok(())
}

/// The deallocation calls owed by the elements of a freeable-element
/// slice, in ascending index order.
pub fn collect_systems_free_calls(els: &Vec<PluginSystem>) -> (calls: Vec<FreeCall>)
    ensures
        calls@ == systems_free_calls(els@),
{
    let n: usize = els.len();
    let mut calls: Vec<FreeCall> = Vec::new();
    let mut i: usize = 0;
    while i < n
        invariant
            i <= n,
            n == els@.len(),
            calls@ == systems_free_calls(els@.subrange(0, i as int)),
        decreases n - i,
    {
        let name = els[i].name;
        calls.push(FreeCall { offset: name.ptr, size: name.layout.size, align: name.layout.align });
        proof {
            assert(els@.subrange(0, i + 1).drop_last() =~= els@.subrange(0, i as int));
            assert(els@.subrange(0, i + 1).last() == els@[i as int]);
            assert(calls@ =~= systems_free_calls(els@.subrange(0, i + 1)));
        }
        i += 1;
    }
    proof {
        assert(els@.subrange(0, n as int) =~= els@);
    }
    calls
}

/// The full, ordered deallocation call sequence owed by a registration
/// record: name, version, each system's name in ascending index order,
/// then the systems buffer.
pub fn collect_register_free_calls(reg: &PluginRegister, els: &Vec<PluginSystem>) -> (calls: Vec<
    FreeCall,
>)
    ensures
        calls@ == register_free_calls(*reg, els@),
{
    let mut calls: Vec<FreeCall> = Vec::new();
    calls.push(
        FreeCall {
            offset: reg.name.ptr,
            size: reg.name.layout.size,
            align: reg.name.layout.align,
        },
    );
    calls.push(
        FreeCall {
            offset: reg.version.ptr,
            size: reg.version.layout.size,
            align: reg.version.layout.align,
        },
    );
    let mut elem_calls = collect_systems_free_calls(els);
    calls.append(&mut elem_calls);
    calls.push(
        FreeCall {
            offset: reg.systems.elements,
            size: reg.systems.layout.size,
            align: reg.systems.layout.align,
        },
    );
    proof {
        assert(calls@ =~= register_free_calls(*reg, els@));
    }
    calls
}

/// Frees an owned string: one deallocation call with the string's own
/// layout descriptor, consuming the record.
pub fn free_string(mem: &mut GuestMem, s: PluginString) -> (r: Result<(), FreeError>)
    requires
        old(mem).wf(),
        old(mem).owns(s.ptr, s.layout),
    ensures
        final(mem).wf(),
        r is Ok,
        freed_exactly(*old(mem), *final(mem), string_free_calls(s)),
{
    let mut calls: Vec<FreeCall> = Vec::new();
    calls.push(FreeCall { offset: s.ptr, size: s.layout.size, align: s.layout.align });
    proof {
        assert(calls@ =~= string_free_calls(s));
    }
    issue_free_calls(mem, &calls)
}

/// Frees a plain slice: exactly one deallocation call, for the backing
/// buffer, and no per-element work.
pub fn free_plain_slice(mem: &mut GuestMem, s: PluginSlice) -> (r: Result<(), FreeError>)
    requires
        old(mem).wf(),
        old(mem).owns(s.elements, s.layout),
    ensures
        final(mem).wf(),
        r is Ok,
        freed_exactly(*old(mem), *final(mem), slice_free_calls(s)),
{
    let mut calls: Vec<FreeCall> = Vec::new();
    calls.push(FreeCall { offset: s.elements, size: s.layout.size, align: s.layout.align });
    proof {
        assert(calls@ =~= slice_free_calls(s));
    }
    issue_free_calls(mem, &calls)
}

/// Frees a system record: its owned name, nothing else.
pub fn free_system(mem: &mut GuestMem, s: PluginSystem) -> (r: Result<(), FreeError>)
    requires
        old(mem).wf(),
        old(mem).owns(s.name.ptr, s.name.layout),
    ensures
        final(mem).wf(),
        r is Ok,
        freed_exactly(*old(mem), *final(mem), system_free_calls(s)),
{
    free_string(mem, s.name)
}

/// Frees a freeable-element slice: every element's owned name first, in
/// ascending index order, then the backing buffer.
pub fn free_systems_slice(
    mem: &mut GuestMem,
    sl: PluginSliceAlloc,
    els: &Vec<PluginSystem>,
) -> (r: Result<(), FreeError>)
    requires
        old(mem).wf(),
        els@.len() == sl.len,
        free_calls_owned(*old(mem), slice_alloc_free_calls(sl, els@)),
    ensures
        final(mem).wf(),
        r is Ok,
        freed_exactly(*old(mem), *final(mem), slice_alloc_free_calls(sl, els@)),
{
    let mut calls = collect_systems_free_calls(els);
    calls.push(FreeCall { offset: sl.elements, size: sl.layout.size, align: sl.layout.align });
    proof {
        assert(calls@ =~= slice_alloc_free_calls(sl, els@));
    }
    issue_free_calls(mem, &calls)
}

/// Frees a registration record: its owned fields in declared order, each
/// recursively, leaves first. With `n` systems this issues exactly
/// `n + 3` deallocation calls.
pub fn free_register(
    mem: &mut GuestMem,
    reg: PluginRegister,
    els: &Vec<PluginSystem>,
) -> (r: Result<(), FreeError>)
    requires
        old(mem).wf(),
        els@.len() == reg.systems.len,
        free_calls_owned(*old(mem), register_free_calls(reg, els@)),
    ensures
        final(mem).wf(),
        r is Ok,
        freed_exactly(*old(mem), *final(mem), register_free_calls(reg, els@)),
{
    let calls = collect_register_free_calls(&reg, els);
    issue_free_calls(mem, &calls)
}

/// Frees a boxed registration record: the record's own calls first, then
/// one final call for the container allocation, with the container's own
/// layout descriptor.
pub fn free_register_box(
    mem: &mut GuestMem,
    box_offset: u32,
    bx: PluginBox<PluginRegister>,
    els: &Vec<PluginSystem>,
) -> (r: Result<(), FreeError>)
    requires
        old(mem).wf(),
        els@.len() == bx.boxed.systems.len,
        free_calls_owned(*old(mem), register_box_free_calls(bx, box_offset, els@)),
    ensures
        final(mem).wf(),
        r is Ok,
        freed_exactly(*old(mem), *final(mem), register_box_free_calls(bx, box_offset, els@)),
{
    let mut calls = collect_register_free_calls(&bx.boxed, els);
    calls.push(FreeCall { offset: box_offset, size: bx.layout.size, align: bx.layout.align });
    proof {
        assert(calls@ =~= register_box_free_calls(bx, box_offset, els@));
    }
    issue_free_calls(mem, &calls)
}

// ---------------------------------------------------------------------------
// The host-native view of a decoded registration record
// ---------------------------------------------------------------------------

/// What one decoded system record means: a stage and the characters of
/// its name.
pub ghost struct SystemView {
    pub stage: crate::raw::SystemStage,
    pub name: Seq<char>,
}

/// What a decoded registration record means.
pub ghost struct RegisterView {
    pub name: Seq<char>,
    pub version: Seq<char>,
    pub systems: Seq<SystemView>,
}

/// One decoded system: host-native.
#[derive(Debug)]
pub struct SystemValue {
    pub stage: crate::raw::SystemStage,
    pub name: String,
}

impl View for SystemValue {
    type V = SystemView;

    open spec fn view(&self) -> SystemView {
        SystemView { stage: self.stage, name: self.name@ }
    }
}

/// A decoded registration record: host-native copies of everything.
#[derive(Debug)]
pub struct RegisterValue {
    pub name: String,
    pub version: String,
    pub systems: Vec<SystemValue>,
}

impl View for RegisterValue {
    type V = RegisterView;

    open spec fn view(&self) -> RegisterView {
        RegisterView {
            name: self.name@,
            version: self.version@,
            systems: self.systems@.map_values(|s: SystemValue| s@),
        }
    }
}

/// What decoding the slice elements from index `i` on yields: for each
/// element in ascending index order, first its record (a bad stage byte
/// fails), then its name string (out of bounds or bad UTF-8 fails).
pub open spec fn spec_read_systems_from(data: Seq<u8>, sl: PluginSliceAlloc, i: int) -> Result<
    Seq<SystemView>,
    DecodeError,
>
    decreases sl.len - i,
{
    if i >= sl.len {
        Ok(Seq::empty())
    } else {
        let chunk = data.subrange(
            sl.elements + SYSTEM_REC_SIZE * i,
            sl.elements + SYSTEM_REC_SIZE * i + SYSTEM_REC_SIZE,
        );
        match system_rec_of_bytes(chunk) {
            Err(e) => Err(e),
            Ok(sys) => match spec_read_string(data, sys.name) {
                Err(e) => Err(e),
                Ok(nm) => match spec_read_systems_from(data, sl, i + 1) {
                    Err(e) => Err(e),
                    Ok(rest) => Ok(seq![SystemView { stage: sys.stage, name: nm }] + rest),
                },
            },
        }
    }
}

/// What decoding a freeable-element slice of systems yields: out of
/// bounds if the buffer does not fit, else its elements in order.
pub open spec fn spec_read_systems(data: Seq<u8>, sl: PluginSliceAlloc) -> Result<
    Seq<SystemView>,
    DecodeError,
> {
    if sl.elements + SYSTEM_REC_SIZE * sl.len > data.len() {
        Err(DecodeError::OutOfBounds)
    } else {
        spec_read_systems_from(data, sl, 0)
    }
}

/// What decoding a boxed registration record at `offset` yields: the
/// record's fields in declared order — name, then version, then the
/// systems slice — with the first failure reported.
pub open spec fn spec_read_register(data: Seq<u8>, offset: u32) -> Result<
    RegisterView,
    DecodeError,
> {
    if offset + REGISTER_BOX_SIZE > data.len() {
        Err(DecodeError::OutOfBounds)
    } else {
        let reg = register_box_of_bytes(
            data.subrange(offset as int, offset + REGISTER_BOX_SIZE),
        ).boxed;
        match spec_read_string(data, reg.name) {
            Err(e) => Err(e),
            Ok(nm) => match spec_read_string(data, reg.version) {
                Err(e) => Err(e),
                Ok(vs) => match spec_read_systems(data, reg.systems) {
                    Err(e) => Err(e),
                    Ok(sys) => Ok(RegisterView { name: nm, version: vs, systems: sys }),
                },
            },
        }
    }
}

/// A sequence of already-decoded views in front of a partial result.
pub open spec fn prepend_views(
    p: Seq<SystemView>,
    r: Result<Seq<SystemView>, DecodeError>,
) -> Result<Seq<SystemView>, DecodeError> {
    match r {
        Ok(rest) => Ok(p + rest),
        Err(e) => Err(e),
    }
}

/// Chains one element's decode failure up to the whole register read:
/// with the box record and both header strings already read and the
/// elements before `i` decoded into `p`, a failure at element `i` is the
/// failure of the register read itself.
proof fn lemma_read_register_elem_err(
    data: Seq<u8>,
    offset: u32,
    nm: Seq<char>,
    vs: Seq<char>,
    p: Seq<SystemView>,
    i: int,
    e: DecodeError,
)
    requires
        offset + REGISTER_BOX_SIZE <= data.len(),
        ({
            let reg = register_box_of_bytes(
                data.subrange(offset as int, offset + REGISTER_BOX_SIZE),
            ).boxed;
            &&& spec_read_string(data, reg.name) == Ok::<Seq<char>, DecodeError>(nm)
            &&& spec_read_string(data, reg.version) == Ok::<Seq<char>, DecodeError>(vs)
            &&& reg.systems.elements + SYSTEM_REC_SIZE * reg.systems.len <= data.len()
            &&& spec_read_systems_from(data, reg.systems, 0) == prepend_views(
                p,
                spec_read_systems_from(data, reg.systems, i),
            )
            &&& spec_read_systems_from(data, reg.systems, i) == Err::<
                Seq<SystemView>,
                DecodeError,
            >(e)
        }),
    ensures
        spec_read_register(data, offset) == Err::<RegisterView, DecodeError>(e),
{
    let reg = register_box_of_bytes(
        data.subrange(offset as int, offset + REGISTER_BOX_SIZE),
    ).boxed;
    assert(prepend_views(p, spec_read_systems_from(data, reg.systems, i)) == Err::<
        Seq<SystemView>,
        DecodeError,
    >(e));
    assert(spec_read_systems(data, reg.systems) == Err::<Seq<SystemView>, DecodeError>(e));
}

/// Decodes the registration record a guest handed back as an offset:
/// resolves and copies every nested value out of guest memory, exactly as
/// `spec_read_register` says. On success it also returns the raw records
/// — the boxed record and the element records — which carry the offsets
/// and layout descriptors the free protocol needs.
#[verifier::loop_isolation(false)]
pub fn read_register(mem: &GuestMem, offset: u32) -> (r: Result<
    (PluginBox<PluginRegister>, Vec<PluginSystem>, RegisterValue),
    DecodeError,
>)
    requires
        mem.data@.len() <= u32::MAX,
    ensures
        r matches Err(e) ==> spec_read_register(mem.data@, offset) == Err::<
            RegisterView,
            DecodeError,
        >(e),
        r matches Ok(t) ==> {
            &&& spec_read_register(mem.data@, offset) == Ok::<RegisterView, DecodeError>(t.2@)
            &&& offset + REGISTER_BOX_SIZE <= mem.data@.len()
            &&& t.0 == register_box_of_bytes(
                mem.data@.subrange(offset as int, offset + REGISTER_BOX_SIZE),
            )
            &&& t.1@.len() == t.0.boxed.systems.len
            &&& forall|i: int|
                0 <= i < t.1@.len() ==> system_rec_of_bytes(
                    mem.data@.subrange(
                        t.0.boxed.systems.elements + SYSTEM_REC_SIZE * i,
                        t.0.boxed.systems.elements + SYSTEM_REC_SIZE * i + SYSTEM_REC_SIZE,
                    ),
                ) == Ok::<PluginSystem, DecodeError>(t.1@[i])
        },
        r is Ok <==> spec_read_register(mem.data@, offset) is Ok,
{
    let bx = match read_register_box(mem, offset) {
        Ok(bx) => bx,
        Err(e) => {
            return Err(e);
        },
    };
    let reg = bx.boxed;
    let name = match read_string_value(mem, &reg.name) {
        Ok(s) => s,
        Err(e) => {
            return Err(e);
        },
    };
    let version = match read_string_value(mem, &reg.version) {
        Ok(s) => s,
        Err(e) => {
            return Err(e);
        },
    };
    let sl = reg.systems;
    if (sl.elements as u64) + (SYSTEM_REC_SIZE as u64) * (sl.len as u64) > mem.data.len() as u64 {
        return Err(DecodeError::OutOfBounds);
    }
    let ghost data = mem.data@;
    let n: u32 = sl.len;
    let mut raw: Vec<PluginSystem> = Vec::new();
    let mut values: Vec<SystemValue> = Vec::new();
    proof {
        let p0 = values@.map_values(|s: SystemValue| s@);
        assert(p0 =~= Seq::<SystemView>::empty());
        match spec_read_systems_from(data, sl, 0) {
            Ok(rest) => {
                assert(p0 + rest =~= rest);
            },
            Err(_) => {},
        }
    }
    let mut i: u32 = 0;
    while i < n
        invariant
            i <= n,
            n == sl.len,
            data == mem.data@,
            sl.elements + SYSTEM_REC_SIZE * n <= data.len(),
            data.len() <= u32::MAX,
            raw@.len() == i,
            values@.len() == i,
            forall|k: int|
                0 <= k < i ==> system_rec_of_bytes(
                    data.subrange(
                        sl.elements + SYSTEM_REC_SIZE * k,
                        sl.elements + SYSTEM_REC_SIZE * k + SYSTEM_REC_SIZE,
                    ),
                ) == Ok::<PluginSystem, DecodeError>(raw@[k]),
            spec_read_systems_from(data, sl, 0) == prepend_views(
                values@.map_values(|s: SystemValue| s@),
                spec_read_systems_from(data, sl, i as int),
            ),
        decreases n - i,
    {
        let off: u32 = sl.elements + (SYSTEM_REC_SIZE as u32) * i;
        let chunk = mem.read_bytes(off, SYSTEM_REC_SIZE as u32);
        let ghost p = values@.map_values(|s: SystemValue| s@);
        let sys = match decode_system_rec(chunk.as_slice()) {
            Ok(sys) => sys,
            Err(e) => {
                proof {
                    assert(spec_read_systems_from(data, sl, i as int) == Err::<
                        Seq<SystemView>,
                        DecodeError,
                    >(e));
                    lemma_read_register_elem_err(
                        data,
                        offset,
                        name@,
                        version@,
                        values@.map_values(|s: SystemValue| s@),
                        i as int,
                        e,
                    );
                }
                return Err(e);
            },
        };
        let sys_name = match read_string_value(mem, &sys.name) {
            Ok(s) => s,
            Err(e) => {
                proof {
                    assert(spec_read_systems_from(data, sl, i as int) == Err::<
                        Seq<SystemView>,
                        DecodeError,
                    >(e));
                    lemma_read_register_elem_err(
                        data,
                        offset,
                        name@,
                        version@,
                        values@.map_values(|s: SystemValue| s@),
                        i as int,
                        e,
                    );
                }
                return Err(e);
            },
        };
        raw.push(sys);
        values.push(SystemValue { stage: sys.stage, name: sys_name });
        proof {
            let v = SystemView { stage: sys.stage, name: sys_name@ };
            assert(values@.map_values(|s: SystemValue| s@) =~= p.push(v));
            match spec_read_systems_from(data, sl, i + 1) {
                Ok(rest) => {
                    assert(spec_read_systems_from(data, sl, i as int) == Ok::<
                        Seq<SystemView>,
                        DecodeError,
                    >(seq![v] + rest));
                    assert(p + (seq![v] + rest) =~= p.push(v) + rest);
                },
                Err(_) => {},
            }
        }
        i += 1;
    }
    proof {
        assert(spec_read_systems_from(data, sl, n as int) == Ok::<Seq<SystemView>, DecodeError>(
            Seq::empty(),
        ));
        let p = values@.map_values(|s: SystemValue| s@);
        assert(p + Seq::<SystemView>::empty() =~= p);
    }
    Ok((bx, raw, RegisterValue { name, version, systems: values }))
}

/// Decodes the severity byte the guest handed to the logging import;
/// exactly the bytes `1` and `2` succeed, anything else is a decode
/// error, never a default.
pub fn read_log_level(value: u8) -> (r: Result<LogLevel, DecodeError>)
    ensures
        r is Ok <==> 1 <= value <= 2,
        r matches Ok(l) ==> l.as_byte() == value,
        r matches Err(e) ==> e == DecodeError::InvalidLevel,
{
    match LogLevel::try_from(value) {
        Ok(l) => Ok(l),
        Err(_) => Err(DecodeError::InvalidLevel),
    }
}

} // verus!
