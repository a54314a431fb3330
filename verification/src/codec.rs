//! The byte-level encoding of the wire records.
//!
//! Every record is a fixed-layout sequence of little-endian `u32` fields,
//! C-compatible, with no padding beyond the natural alignment of `u32`
//! (the one padded record is `PluginSystem`, whose stage byte is followed
//! by three padding bytes). The encoder and decoder here are pure functions
//! on bytes; where those bytes live and who frees them is the concern of
//! the guest and host modules.

use vstd::bytes::{
    lemma_auto_spec_u32_to_from_le_bytes, spec_u32_from_le_bytes, spec_u32_to_le_bytes,
    u32_from_le_bytes, u32_to_le_bytes,
};
use vstd::prelude::*;
use vstd::slice::slice_subrange;

use crate::raw::{
    Layout, PluginBox, PluginRegister, PluginSlice, PluginSliceAlloc, PluginString, PluginSystem,
    SystemStage,
};

verus! {

/// Encoded size of a `Layout` record.
pub const LAYOUT_SIZE: usize = 8;

/// Encoded size of a `PluginString` record.
pub const STRING_REC_SIZE: usize = 16;

/// Encoded size of a `PluginSlice` or `PluginSliceAlloc` record.
pub const SLICE_REC_SIZE: usize = 16;

/// Encoded size of a `PluginSystem` record: one stage byte, three padding
/// bytes, then the name record.
pub const SYSTEM_REC_SIZE: usize = 20;

/// Encoded size of a `PluginRegister` record.
pub const REGISTER_REC_SIZE: usize = 48;

/// Encoded size of a `PluginBox<PluginRegister>` record.
pub const REGISTER_BOX_SIZE: usize = 56;

/// Why a byte image failed to decode. Malformed input is reported, never
/// panicked on.
#[derive(Copy, Clone, Debug, PartialEq, Eq, Structural)]
pub enum DecodeError {
    /// A record or buffer lies (partly) outside the readable byte range.
    OutOfBounds,
    /// A stage byte outside `1..=5`.
    InvalidStage,
    /// A severity byte outside `1..=2`.
    InvalidLevel,
    /// A string region that is not valid UTF-8.
    InvalidUtf8,
}

// ---------------------------------------------------------------------------
// Layout
// ---------------------------------------------------------------------------

/// The 8-byte encoding of a layout descriptor.
pub open spec fn layout_bytes(l: Layout) -> Seq<u8> {
    spec_u32_to_le_bytes(l.size) + spec_u32_to_le_bytes(l.align)
}

/// The layout descriptor an 8-byte image stands for.
pub open spec fn layout_of_bytes(b: Seq<u8>) -> Layout
    recommends
        b.len() == LAYOUT_SIZE,
{
    Layout {
        size: spec_u32_from_le_bytes(b.subrange(0, 4)),
        align: spec_u32_from_le_bytes(b.subrange(4, 8)),
    }
}

/// Encodes a layout descriptor.
pub fn encode_layout(l: Layout) -> (v: Vec<u8>)
    ensures
        v@ == layout_bytes(l),
        v@.len() == LAYOUT_SIZE,
{
    proof {
        lemma_auto_spec_u32_to_from_le_bytes();
    }
    let mut v = u32_to_le_bytes(l.size);
    let mut a = u32_to_le_bytes(l.align);
    v.append(&mut a);
    v
}

/// Decodes a layout descriptor from an 8-byte image.
pub fn decode_layout(b: &[u8]) -> (l: Layout)
    requires
        b@.len() == LAYOUT_SIZE,
    ensures
        l == layout_of_bytes(b@),
{
    let size = u32_from_le_bytes(slice_subrange(b, 0, 4));
    let align = u32_from_le_bytes(slice_subrange(b, 4, 8));
    Layout { size, align }
}

/// Decoding inverts encoding for every layout descriptor.
pub proof fn lemma_layout_round_trip(l: Layout)
    ensures
        layout_bytes(l).len() == LAYOUT_SIZE,
        layout_of_bytes(layout_bytes(l)) == l,
{
    lemma_auto_spec_u32_to_from_le_bytes();
    let b = layout_bytes(l);
    assert(b.subrange(0, 4) =~= spec_u32_to_le_bytes(l.size));
    assert(b.subrange(4, 8) =~= spec_u32_to_le_bytes(l.align));
}

// ---------------------------------------------------------------------------
// PluginString record
// ---------------------------------------------------------------------------

/// The 16-byte encoding of a string record: pointer, byte length, layout.
pub open spec fn string_rec_bytes(s: PluginString) -> Seq<u8> {
    spec_u32_to_le_bytes(s.ptr) + spec_u32_to_le_bytes(s.len) + layout_bytes(s.layout)
}

/// The string record a 16-byte image stands for.
pub open spec fn string_rec_of_bytes(b: Seq<u8>) -> PluginString
    recommends
        b.len() == STRING_REC_SIZE,
{
    PluginString {
        ptr: spec_u32_from_le_bytes(b.subrange(0, 4)),
        len: spec_u32_from_le_bytes(b.subrange(4, 8)),
        layout: layout_of_bytes(b.subrange(8, 16)),
    }
}

/// Encodes a string record.
pub fn encode_string_rec(s: PluginString) -> (v: Vec<u8>)
    ensures
        v@ == string_rec_bytes(s),
        v@.len() == STRING_REC_SIZE,
{
    proof {
        lemma_auto_spec_u32_to_from_le_bytes();
    }
    let mut v = u32_to_le_bytes(s.ptr);
    let mut l = u32_to_le_bytes(s.len);
    v.append(&mut l);
    let mut lay = encode_layout(s.layout);
    v.append(&mut lay);
    v
}

/// Decodes a string record from a 16-byte image.
pub fn decode_string_rec(b: &[u8]) -> (s: PluginString)
    requires
        b@.len() == STRING_REC_SIZE,
    ensures
        s == string_rec_of_bytes(b@),
{
    let ptr = u32_from_le_bytes(slice_subrange(b, 0, 4));
    let len = u32_from_le_bytes(slice_subrange(b, 4, 8));
    let layout = decode_layout(slice_subrange(b, 8, 16));
    proof {
        assert(b@.subrange(8, 16).subrange(0, 4) =~= b@.subrange(8, 12));
        assert(b@.subrange(8, 16).subrange(4, 8) =~= b@.subrange(12, 16));
        assert(string_rec_of_bytes(b@).layout == layout_of_bytes(b@.subrange(8, 16)));
    }
    PluginString { ptr, len, layout }
}

/// Decoding inverts encoding for every string record.
pub proof fn lemma_string_rec_round_trip(s: PluginString)
    ensures
        string_rec_bytes(s).len() == STRING_REC_SIZE,
        string_rec_of_bytes(string_rec_bytes(s)) == s,
{
    lemma_auto_spec_u32_to_from_le_bytes();
    let b = string_rec_bytes(s);
    assert(b.subrange(0, 4) =~= spec_u32_to_le_bytes(s.ptr));
    assert(b.subrange(4, 8) =~= spec_u32_to_le_bytes(s.len));
    assert(b.subrange(8, 16) =~= layout_bytes(s.layout));
    lemma_layout_round_trip(s.layout);
}

// ---------------------------------------------------------------------------
// Slice records
// ---------------------------------------------------------------------------

/// The 16-byte encoding of a plain-slice record: element count, element
/// pointer, layout of the backing buffer.
pub open spec fn slice_rec_bytes(s: PluginSlice) -> Seq<u8> {
    spec_u32_to_le_bytes(s.len) + spec_u32_to_le_bytes(s.elements) + layout_bytes(s.layout)
}

/// The plain-slice record a 16-byte image stands for.
pub open spec fn slice_rec_of_bytes(b: Seq<u8>) -> PluginSlice
    recommends
        b.len() == SLICE_REC_SIZE,
{
    PluginSlice {
        len: spec_u32_from_le_bytes(b.subrange(0, 4)),
        elements: spec_u32_from_le_bytes(b.subrange(4, 8)),
        layout: layout_of_bytes(b.subrange(8, 16)),
    }
}

/// The 16-byte encoding of a freeable-element-slice record; same field
/// order as the plain slice.
pub open spec fn slice_alloc_rec_bytes(s: PluginSliceAlloc) -> Seq<u8> {
    spec_u32_to_le_bytes(s.len) + spec_u32_to_le_bytes(s.elements) + layout_bytes(s.layout)
}

/// The freeable-element-slice record a 16-byte image stands for.
pub open spec fn slice_alloc_rec_of_bytes(b: Seq<u8>) -> PluginSliceAlloc
    recommends
        b.len() == SLICE_REC_SIZE,
{
    PluginSliceAlloc {
        len: spec_u32_from_le_bytes(b.subrange(0, 4)),
        elements: spec_u32_from_le_bytes(b.subrange(4, 8)),
        layout: layout_of_bytes(b.subrange(8, 16)),
    }
}

/// Encodes a plain-slice record.
pub fn encode_slice_rec(s: PluginSlice) -> (v: Vec<u8>)
    ensures
        v@ == slice_rec_bytes(s),
        v@.len() == SLICE_REC_SIZE,
{
    proof {
        lemma_auto_spec_u32_to_from_le_bytes();
    }
    let mut v = u32_to_le_bytes(s.len);
    let mut e = u32_to_le_bytes(s.elements);
    v.append(&mut e);
    let mut lay = encode_layout(s.layout);
    v.append(&mut lay);
    v
}

/// Decodes a plain-slice record from a 16-byte image.
pub fn decode_slice_rec(b: &[u8]) -> (s: PluginSlice)
    requires
        b@.len() == SLICE_REC_SIZE,
    ensures
        s == slice_rec_of_bytes(b@),
{
    let len = u32_from_le_bytes(slice_subrange(b, 0, 4));
    let elements = u32_from_le_bytes(slice_subrange(b, 4, 8));
    let layout = decode_layout(slice_subrange(b, 8, 16));
    proof {
        assert(b@.subrange(8, 16).subrange(0, 4) =~= b@.subrange(8, 12));
        assert(b@.subrange(8, 16).subrange(4, 8) =~= b@.subrange(12, 16));
    }
    PluginSlice { len, elements, layout }
}

/// Encodes a freeable-element-slice record.
pub fn encode_slice_alloc_rec(s: PluginSliceAlloc) -> (v: Vec<u8>)
    ensures
        v@ == slice_alloc_rec_bytes(s),
        v@.len() == SLICE_REC_SIZE,
{
    proof {
        lemma_auto_spec_u32_to_from_le_bytes();
    }
    let mut v = u32_to_le_bytes(s.len);
    let mut e = u32_to_le_bytes(s.elements);
    v.append(&mut e);
    let mut lay = encode_layout(s.layout);
    v.append(&mut lay);
    v
}

/// Decodes a freeable-element-slice record from a 16-byte image.
pub fn decode_slice_alloc_rec(b: &[u8]) -> (s: PluginSliceAlloc)
    requires
        b@.len() == SLICE_REC_SIZE,
    ensures
        s == slice_alloc_rec_of_bytes(b@),
{
    let len = u32_from_le_bytes(slice_subrange(b, 0, 4));
    let elements = u32_from_le_bytes(slice_subrange(b, 4, 8));
    let layout = decode_layout(slice_subrange(b, 8, 16));
    proof {
        assert(b@.subrange(8, 16).subrange(0, 4) =~= b@.subrange(8, 12));
        assert(b@.subrange(8, 16).subrange(4, 8) =~= b@.subrange(12, 16));
    }
    PluginSliceAlloc { len, elements, layout }
}

/// Decoding inverts encoding for every plain-slice record.
pub proof fn lemma_slice_rec_round_trip(s: PluginSlice)
    ensures
        slice_rec_bytes(s).len() == SLICE_REC_SIZE,
        slice_rec_of_bytes(slice_rec_bytes(s)) == s,
{
    lemma_auto_spec_u32_to_from_le_bytes();
    let b = slice_rec_bytes(s);
    assert(b.subrange(0, 4) =~= spec_u32_to_le_bytes(s.len));
    assert(b.subrange(4, 8) =~= spec_u32_to_le_bytes(s.elements));
    assert(b.subrange(8, 16) =~= layout_bytes(s.layout));
    lemma_layout_round_trip(s.layout);
}

/// Decoding inverts encoding for every freeable-element-slice record.
pub proof fn lemma_slice_alloc_rec_round_trip(s: PluginSliceAlloc)
    ensures
        slice_alloc_rec_bytes(s).len() == SLICE_REC_SIZE,
        slice_alloc_rec_of_bytes(slice_alloc_rec_bytes(s)) == s,
{
    lemma_auto_spec_u32_to_from_le_bytes();
    let b = slice_alloc_rec_bytes(s);
    assert(b.subrange(0, 4) =~= spec_u32_to_le_bytes(s.len));
    assert(b.subrange(4, 8) =~= spec_u32_to_le_bytes(s.elements));
    assert(b.subrange(8, 16) =~= layout_bytes(s.layout));
    lemma_layout_round_trip(s.layout);
}

// ---------------------------------------------------------------------------
// PluginSystem record
// ---------------------------------------------------------------------------

/// The 20-byte encoding of a system record: the stage byte, three padding
/// bytes, then the name record.
pub open spec fn system_rec_bytes(s: PluginSystem) -> Seq<u8> {
    seq![s.stage.as_byte(), 0u8, 0u8, 0u8] + string_rec_bytes(s.name)
}

/// The system record a 20-byte image stands for, or the decode error for a
/// stage byte outside `1..=5`. Padding bytes are ignored.
pub open spec fn system_rec_of_bytes(b: Seq<u8>) -> Result<PluginSystem, DecodeError>
    recommends
        b.len() == SYSTEM_REC_SIZE,
{
    match SystemStage::spec_try_from(b[0]) {
        Ok(stage) => Ok(PluginSystem { stage, name: string_rec_of_bytes(b.subrange(4, 20)) }),
        Err(_) => Err(DecodeError::InvalidStage),
    }
}

/// Encodes a system record.
pub fn encode_system_rec(s: PluginSystem) -> (v: Vec<u8>)
    ensures
        v@ == system_rec_bytes(s),
        v@.len() == SYSTEM_REC_SIZE,
{
    let mut v: Vec<u8> = Vec::new();
    v.push(s.stage.to_byte());
    v.push(0);
    v.push(0);
    v.push(0);
    let mut name = encode_string_rec(s.name);
    v.append(&mut name);
    proof {
        assert(v@ =~= system_rec_bytes(s));
    }
    v
}

/// Decodes a system record from a 20-byte image; exactly the images whose
/// first byte is `1..=5` succeed.
pub fn decode_system_rec(b: &[u8]) -> (r: Result<PluginSystem, DecodeError>)
    requires
        b@.len() == SYSTEM_REC_SIZE,
    ensures
        r == system_rec_of_bytes(b@),
        r is Ok <==> 1 <= b@[0] <= 5,
{
    let stage_byte = *vstd::slice::slice_index_get(b, 0);
    match SystemStage::try_from(stage_byte) {
        Ok(stage) => {
            let name = decode_string_rec(slice_subrange(b, 4, 20));
            Ok(PluginSystem { stage, name })
        },
        Err(_) => Err(DecodeError::InvalidStage),
    }
}

/// Decoding inverts encoding for every system record.
pub proof fn lemma_system_rec_round_trip(s: PluginSystem)
    ensures
        system_rec_bytes(s).len() == SYSTEM_REC_SIZE,
        system_rec_of_bytes(system_rec_bytes(s)) == Ok::<PluginSystem, DecodeError>(s),
{
    lemma_string_rec_round_trip(s.name);
    let b = system_rec_bytes(s);
    assert(b[0] == s.stage.as_byte());
    assert(b.subrange(4, 20) =~= string_rec_bytes(s.name));
}

// ---------------------------------------------------------------------------
// PluginRegister record and its owned box
// ---------------------------------------------------------------------------

/// The 48-byte encoding of a registration record: name, version, systems.
pub open spec fn register_rec_bytes(r: PluginRegister) -> Seq<u8> {
    string_rec_bytes(r.name) + string_rec_bytes(r.version) + slice_alloc_rec_bytes(r.systems)
}

/// The registration record a 48-byte image stands for.
pub open spec fn register_rec_of_bytes(b: Seq<u8>) -> PluginRegister
    recommends
        b.len() == REGISTER_REC_SIZE,
{
    PluginRegister {
        name: string_rec_of_bytes(b.subrange(0, 16)),
        version: string_rec_of_bytes(b.subrange(16, 32)),
        systems: slice_alloc_rec_of_bytes(b.subrange(32, 48)),
    }
}

/// Encodes a registration record.
pub fn encode_register_rec(r: PluginRegister) -> (v: Vec<u8>)
    ensures
        v@ == register_rec_bytes(r),
        v@.len() == REGISTER_REC_SIZE,
{
    let mut v = encode_string_rec(r.name);
    let mut version = encode_string_rec(r.version);
    v.append(&mut version);
    let mut systems = encode_slice_alloc_rec(r.systems);
    v.append(&mut systems);
    v
}

/// Decodes a registration record from a 48-byte image.
pub fn decode_register_rec(b: &[u8]) -> (r: PluginRegister)
    requires
        b@.len() == REGISTER_REC_SIZE,
    ensures
        r == register_rec_of_bytes(b@),
{
    let name = decode_string_rec(slice_subrange(b, 0, 16));
    let version = decode_string_rec(slice_subrange(b, 16, 32));
    let systems = decode_slice_alloc_rec(slice_subrange(b, 32, 48));
    PluginRegister { name, version, systems }
}

/// Decoding inverts encoding for every registration record.
pub proof fn lemma_register_rec_round_trip(r: PluginRegister)
    ensures
        register_rec_bytes(r).len() == REGISTER_REC_SIZE,
        register_rec_of_bytes(register_rec_bytes(r)) == r,
{
    lemma_string_rec_round_trip(r.name);
    lemma_string_rec_round_trip(r.version);
    lemma_slice_alloc_rec_round_trip(r.systems);
    let b = register_rec_bytes(r);
    assert(b.subrange(0, 16) =~= string_rec_bytes(r.name));
    assert(b.subrange(16, 32) =~= string_rec_bytes(r.version));
    assert(b.subrange(32, 48) =~= slice_alloc_rec_bytes(r.systems));
}

/// The 56-byte encoding of a boxed registration record: the record, then
/// the layout of the container's own allocation.
pub open spec fn register_box_bytes(b: PluginBox<PluginRegister>) -> Seq<u8> {
    register_rec_bytes(b.boxed) + layout_bytes(b.layout)
}

/// The boxed registration record a 56-byte image stands for.
pub open spec fn register_box_of_bytes(b: Seq<u8>) -> PluginBox<PluginRegister>
    recommends
        b.len() == REGISTER_BOX_SIZE,
{
    PluginBox {
        boxed: register_rec_of_bytes(b.subrange(0, 48)),
        layout: layout_of_bytes(b.subrange(48, 56)),
    }
}

/// Encodes a boxed registration record.
pub fn encode_register_box(b: PluginBox<PluginRegister>) -> (v: Vec<u8>)
    ensures
        v@ == register_box_bytes(b),
        v@.len() == REGISTER_BOX_SIZE,
{
    let mut v = encode_register_rec(b.boxed);
    let mut lay = encode_layout(b.layout);
    v.append(&mut lay);
    v
}

/// Decodes a boxed registration record from a 56-byte image.
pub fn decode_register_box(b: &[u8]) -> (r: PluginBox<PluginRegister>)
    requires
        b@.len() == REGISTER_BOX_SIZE,
    ensures
        r == register_box_of_bytes(b@),
{
    let boxed = decode_register_rec(slice_subrange(b, 0, 48));
    let layout = decode_layout(slice_subrange(b, 48, 56));
    PluginBox { boxed, layout }
}

/// Decoding inverts encoding for every boxed registration record.
pub proof fn lemma_register_box_round_trip(b: PluginBox<PluginRegister>)
    ensures
        register_box_bytes(b).len() == REGISTER_BOX_SIZE,
        register_box_of_bytes(register_box_bytes(b)) == b,
{
    lemma_register_rec_round_trip(b.boxed);
    lemma_layout_round_trip(b.layout);
    let bytes = register_box_bytes(b);
    assert(bytes.subrange(0, 48) =~= register_rec_bytes(b.boxed));
    assert(bytes.subrange(48, 56) =~= layout_bytes(b.layout));
}

// ---------------------------------------------------------------------------
// Element buffers
// ---------------------------------------------------------------------------

/// The backing-buffer encoding of a plain slice of `u32` elements: each
/// element's four little-endian bytes, in index order.
pub open spec fn u32s_bytes(els: Seq<u32>) -> Seq<u8>
    decreases els.len(),
{
    if els.len() == 0 {
        Seq::empty()
    } else {
        u32s_bytes(els.drop_last()) + spec_u32_to_le_bytes(els.last())
    }
}

/// The buffer of `n` elements occupies `4 * n` bytes.
pub proof fn lemma_u32s_bytes_len(els: Seq<u32>)
    ensures
        u32s_bytes(els).len() == 4 * els.len(),
    decreases els.len(),
{
    lemma_auto_spec_u32_to_from_le_bytes();
    if els.len() > 0 {
        lemma_u32s_bytes_len(els.drop_last());
    }
}

/// Element `i` of the buffer sits at byte offset `4 * i`.
pub proof fn lemma_u32s_bytes_index(els: Seq<u32>, i: int)
    requires
        0 <= i < els.len(),
    ensures
        u32s_bytes(els).len() == 4 * els.len(),
        u32s_bytes(els).subrange(4 * i, 4 * i + 4) == spec_u32_to_le_bytes(els[i]),
    decreases els.len(),
{
    lemma_auto_spec_u32_to_from_le_bytes();
    lemma_u32s_bytes_len(els);
    lemma_u32s_bytes_len(els.drop_last());
    if i == els.len() - 1 {
        assert(u32s_bytes(els).subrange(4 * i, 4 * i + 4) =~= spec_u32_to_le_bytes(els[i]));
    } else {
        lemma_u32s_bytes_index(els.drop_last(), i);
        assert(u32s_bytes(els).subrange(4 * i, 4 * i + 4) =~= u32s_bytes(
            els.drop_last(),
        ).subrange(4 * i, 4 * i + 4));
    }
}

/// The backing-buffer encoding of a slice of system records: each element's
/// 20-byte record, in index order.
pub open spec fn systems_bytes(els: Seq<PluginSystem>) -> Seq<u8>
    decreases els.len(),
{
    if els.len() == 0 {
        Seq::empty()
    } else {
        systems_bytes(els.drop_last()) + system_rec_bytes(els.last())
    }
}

/// The buffer of `n` system records occupies `20 * n` bytes.
pub proof fn lemma_systems_bytes_len(els: Seq<PluginSystem>)
    ensures
        systems_bytes(els).len() == 20 * els.len(),
    decreases els.len(),
{
    if els.len() > 0 {
        lemma_systems_bytes_len(els.drop_last());
        lemma_system_rec_round_trip(els.last());
    }
}

/// Element `i` of the buffer sits at byte offset `20 * i`.
pub proof fn lemma_systems_bytes_index(els: Seq<PluginSystem>, i: int)
    requires
        0 <= i < els.len(),
    ensures
        systems_bytes(els).len() == 20 * els.len(),
        systems_bytes(els).subrange(20 * i, 20 * i + 20) == system_rec_bytes(els[i]),
    decreases els.len(),
{
    lemma_systems_bytes_len(els);
    lemma_systems_bytes_len(els.drop_last());
    lemma_system_rec_round_trip(els.last());
    if i == els.len() - 1 {
        assert(systems_bytes(els).subrange(20 * i, 20 * i + 20) =~= system_rec_bytes(els[i]));
    } else {
        lemma_systems_bytes_index(els.drop_last(), i);
        assert(systems_bytes(els).subrange(20 * i, 20 * i + 20) =~= systems_bytes(
            els.drop_last(),
        ).subrange(20 * i, 20 * i + 20));
    }
}

} // verus!
