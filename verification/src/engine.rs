//! The execution-engine boundary: the host side of the protocol running
//! against a real guest instance.
//!
//! The engine (wasmer) maps guest offsets to host-readable bytes and
//! invokes guest-exported functions. Both capabilities are taken on trust
//! at this narrow boundary — a byte-range read and the exported entry
//! points — and everything that interprets the bytes or decides the order
//! of deallocation calls is the verified code of the other modules.
//!
//! A store, an instance and its memory are only ever handled together, as
//! one `EngineCtx` built by `load_guest`: wasmer aborts when a handle is
//! used with a store it does not belong to, and keeping the three in one
//! opaque context makes such a mismatched pair impossible to form, so
//! every failure surfaces as an error value.

use vstd::prelude::*;
use vstd::utf8::{decode_utf8, valid_utf8};

use crate::codec::{
    decode_register_box, decode_system_rec, DecodeError, REGISTER_BOX_SIZE, SYSTEM_REC_SIZE,
};
use crate::host::{
    collect_register_free_calls, register_box_free_calls, RegisterValue, SystemValue,
};
use crate::mem::FreeCall;
use crate::raw::{Layout, PluginBox, PluginRegister, PluginString, PluginSystem};

verus! {

/// Why a call through the execution engine failed.
#[derive(Copy, Clone, Debug, PartialEq, Eq, Structural)]
pub enum HostError {
    /// The module's bytes do not compile or instantiate: an integration
    /// error at load time, fatal to this module but not to the host.
    InvalidModule,
    /// The guest module does not export a required entry point, or
    /// exports it with another type: an integration error at load time.
    MissingExport,
    /// A call into the guest failed at runtime.
    CallFailed,
    /// A byte range lies outside the guest's linear memory.
    MemoryAccess,
    /// The bytes read from guest memory do not decode.
    Decode(DecodeError),
}

#[verifier::external_type_specification]
#[verifier::external_body]
pub struct ExEngine(wasmer::Engine);

#[verifier::external_type_specification]
#[verifier::external_body]
pub struct ExStore(wasmer::Store);

#[verifier::external_type_specification]
#[verifier::external_body]
pub struct ExInstance(wasmer::Instance);

#[verifier::external_type_specification]
#[verifier::external_body]
pub struct ExMemory(wasmer::Memory);

/// A loaded guest: its store, its instance and its exported linear
/// memory, created together and only ever used together. The fields are
/// private; the one way to obtain a context is `load_guest`, so no handle
/// can meet a foreign store.
#[derive(Debug)]
pub struct EngineCtx {
    store: wasmer::Store,
    instance: wasmer::Instance,
    memory: wasmer::Memory,
}

/// Relies on wasmer's `Store::new`, `Module::new`, `Instance::new`,
/// `Exports::get_memory` and `Exports::get_typed_function`: compiles and
/// instantiates the guest module in a fresh store and resolves its
/// exported memory and its deallocation entry point `__quill_free`. A
/// missing or ill-typed export is reported at load time, as an error of
/// this module only. Every handle in the returned context belongs to the
/// store beside it.
#[verifier::external_body]
pub fn load_guest(engine: wasmer::Engine, wasm: &[u8]) -> (r: Result<EngineCtx, HostError>)
    ensures
        r matches Err(e) ==> e == HostError::InvalidModule || e == HostError::MissingExport,
{
    let mut store = wasmer::Store::new(engine);
    let module = wasmer::Module::new(&store, wasm).map_err(|_| HostError::InvalidModule)?;
    let imports = wasmer::Imports::new();
    let instance =
        wasmer::Instance::new(&mut store, &module, &imports).map_err(|_| HostError::InvalidModule)?;
    let memory =
        instance.exports.get_memory("memory").map_err(|_| HostError::MissingExport)?.clone();
    instance
        .exports
        .get_typed_function::<(u32, u32, u32), ()>(&store, "__quill_free")
        .map_err(|_| HostError::MissingExport)?;
    Ok(EngineCtx { store, instance, memory })
}

/// Relies on wasmer's `Memory::view` and `MemoryView::read`: on success
/// the buffer holds exactly `len` bytes copied from the guest's linear
/// memory at `offset`; a range not fully inside the guest's memory is an
/// error, never a short read. The memory and store come from one
/// `load_guest`, so the access cannot meet a foreign store.
#[verifier::external_body]
pub(crate) fn read_guest_bytes(ctx: &EngineCtx, offset: u32, len: u32) -> (r: Result<
    Vec<u8>,
    HostError,
>)
    ensures
        r matches Ok(v) ==> v@.len() == len,
        r matches Err(e) ==> e == HostError::MemoryAccess,
{
    let view = ctx.memory.view(&ctx.store);
    let mut buf = vec![0u8; len as usize];
    match view.read(offset as u64, &mut buf) {
        Ok(()) => Ok(buf),
        Err(_) => Err(HostError::MemoryAccess),
    }
}

/// Relies on wasmer's `Exports::get_typed_function` and
/// `TypedFunction::call`: looks up the guest's exported deallocation
/// entry point `__quill_free` and invokes it with an offset and the
/// transported (size, align) pair. Nothing is assumed of the call's
/// effect inside the guest; the two errors tell a missing or ill-typed
/// export apart from a call that failed at runtime, and no other error
/// comes back.
#[verifier::external_body]
pub fn wasm_free_unchecked(ctx: &mut EngineCtx, ptr: u32, free_size: u32, free_align: u32) -> (r:
    Result<(), HostError>)
    ensures
        r matches Err(e) ==> e == HostError::MissingExport || e == HostError::CallFailed,
{
    let f: wasmer::TypedFunction<(u32, u32, u32), ()> = ctx
        .instance
        .exports
        .get_typed_function(&ctx.store, "__quill_free")
        .map_err(|_| HostError::MissingExport)?;
    f.call(&mut ctx.store, ptr, free_size, free_align).map_err(|_| HostError::CallFailed)
}

/// Relies on wasmer's `Exports::get_typed_function` and
/// `TypedFunction::call`: invokes the guest's exported registration entry
/// point `__quill_register`, which returns the offset of a boxed
/// registration record the host now owns. Nothing is assumed of the
/// offset's value.
#[verifier::external_body]
pub fn call_register(ctx: &mut EngineCtx) -> (r: Result<u32, HostError>)
    ensures
        r matches Err(e) ==> e == HostError::MissingExport || e == HostError::CallFailed,
{
    let f: wasmer::TypedFunction<(), u32> = ctx
        .instance
        .exports
        .get_typed_function(&ctx.store, "__quill_register")
        .map_err(|_| HostError::MissingExport)?;
    f.call(&mut ctx.store).map_err(|_| HostError::CallFailed)
}

/// Frees one guest allocation through the engine: a single deallocation
/// call against `ptr` with the given layout descriptor, the pair the
/// protocol transported from the allocation itself. The one call made is
/// appended to `issued`, whether or not it succeeds.
pub fn wasm_free(
    layout: Layout,
    ctx: &mut EngineCtx,
    ptr: u32,
    issued: &mut Vec<FreeCall>,
) -> (r: Result<(), HostError>)
    ensures
        final(issued)@ == old(issued)@.push(
            (FreeCall { offset: ptr, size: layout.size, align: layout.align }),
        ),
        r matches Err(e) ==> e == HostError::MissingExport || e == HostError::CallFailed,
{
    issued.push(FreeCall { offset: ptr, size: layout.size, align: layout.align });
    wasm_free_unchecked(ctx, ptr, layout.size, layout.align)
}

impl PluginString {
    /// Copies this string out of the guest's linear memory through the
    /// engine and validates it. A failed read or invalid UTF-8 yields
    /// `None`; a result is always the decoding of some `len`-byte valid
    /// UTF-8 image.
    pub fn to_string(&self, ctx: &EngineCtx) -> (r: Option<String>)
        ensures
            r matches Some(st) ==> exists|b: Seq<u8>|
                b.len() == self.len && valid_utf8(b) && st@ == decode_utf8(b),
    {
        match read_remote_string(ctx, self) {
            Ok(st) => Some(st),
            Err(_) => None,
        }
    }
}

impl PluginBox<PluginRegister> {
    /// Releases the container allocation itself through the engine: one
    /// deallocation call against `ptr` with the container's own layout
    /// descriptor, appended to `issued`, consuming the record. Per the
    /// free protocol the container comes last: call this only after the
    /// record's owned fields have been freed — `issued` then shows the
    /// container's call strictly after its dependents'.
    pub fn free_ptr_to(
        self,
        ptr: u32,
        ctx: &mut EngineCtx,
        issued: &mut Vec<FreeCall>,
    ) -> (r: Result<(), HostError>)
        ensures
            final(issued)@ == old(issued)@.push(
                (FreeCall { offset: ptr, size: self.layout.size, align: self.layout.align }),
            ),
            r matches Err(e) ==> e == HostError::MissingExport || e == HostError::CallFailed,
    {
        issued.push(FreeCall { offset: ptr, size: self.layout.size, align: self.layout.align });
        wasm_free_unchecked(ctx, ptr, self.layout.size, self.layout.align)
    }
}

/// Copies one string record's bytes out of the guest through the engine
/// and validates them; the result is the decoding of some valid UTF-8
/// image of the record's length.
fn read_remote_string(ctx: &EngineCtx, s: &PluginString) -> (r: Result<String, HostError>)
    ensures
        r matches Ok(st) ==> exists|b: Seq<u8>|
            b.len() == s.len && valid_utf8(b) && st@ == decode_utf8(b),
{
    let bytes = match read_guest_bytes(ctx, s.ptr, s.len) {
        Ok(v) => v,
        Err(e) => {
            return Err(e);
        },
    };
    let ghost image = bytes@;
    match crate::host::bytes_to_string(bytes) {
        Some(st) => {
            proof {
                assert(image.len() == s.len && valid_utf8(image) && st@ == decode_utf8(image));
            }
            Ok(st)
        },
        None => Err(HostError::Decode(DecodeError::InvalidUtf8)),
    }
}

/// Reads and decodes the boxed registration record a guest instance
/// handed back as `offset`. On success the host-native value is
/// consistent with the raw records returned beside it: one element per
/// declared system, stages matching, and the name, the version and every
/// system name the decoding of a valid UTF-8 image of its record's
/// length.
pub fn read_register_remote(ctx: &EngineCtx, offset: u32) -> (r: Result<
    (PluginBox<PluginRegister>, Vec<PluginSystem>, RegisterValue),
    HostError,
>)
    ensures
        r matches Ok(t) ==> {
            &&& t.1@.len() == t.0.boxed.systems.len
            &&& t.2.systems@.len() == t.1@.len()
            &&& forall|i: int| 0 <= i < t.1@.len() ==> t.2.systems@[i].stage == t.1@[i].stage
            &&& exists|b: Seq<u8>|
                b.len() == t.0.boxed.name.len && valid_utf8(b) && t.2.name@ == decode_utf8(b)
            &&& exists|b: Seq<u8>|
                b.len() == t.0.boxed.version.len && valid_utf8(b) && t.2.version@ == decode_utf8(
                    b,
                )
            &&& forall|i: int|
                0 <= i < t.1@.len() ==> exists|b: Seq<u8>|
                    b.len() == (#[trigger] t.1@[i]).name.len && valid_utf8(b)
                        && t.2.systems@[i].name@ == decode_utf8(b)
        },
{
    let buf = match read_guest_bytes(ctx, offset, REGISTER_BOX_SIZE as u32) {
        Ok(v) => v,
        Err(e) => {
            return Err(e);
        },
    };
    let bx = decode_register_box(buf.as_slice());
    let reg = bx.boxed;
    let name = match read_remote_string(ctx, &reg.name) {
        Ok(s) => s,
        Err(e) => {
            return Err(e);
        },
    };
    let version = match read_remote_string(ctx, &reg.version) {
        Ok(s) => s,
        Err(e) => {
            return Err(e);
        },
    };
    let n: u32 = reg.systems.len;
    if (reg.systems.elements as u64) + (SYSTEM_REC_SIZE as u64) * (n as u64) > u32::MAX as u64 {
        return Err(HostError::MemoryAccess);
    }
    let mut raw: Vec<PluginSystem> = Vec::new();
    let mut values: Vec<SystemValue> = Vec::new();
    let mut i: u32 = 0;
    while i < n
        invariant
            i <= n,
            reg.systems.elements + SYSTEM_REC_SIZE * n <= u32::MAX,
            raw@.len() == i,
            values@.len() == i,
            forall|k: int| 0 <= k < i ==> values@[k].stage == raw@[k].stage,
            forall|k: int|
                0 <= k < i ==> exists|b: Seq<u8>|
                    b.len() == (#[trigger] raw@[k]).name.len && valid_utf8(b) && values@[k].name@
                        == decode_utf8(b),
        decreases n - i,
    {
        let off: u32 = reg.systems.elements + (SYSTEM_REC_SIZE as u32) * i;
        let chunk = match read_guest_bytes(ctx, off, SYSTEM_REC_SIZE as u32) {
            Ok(v) => v,
            Err(e) => {
                return Err(e);
            },
        };
        let sys = match decode_system_rec(chunk.as_slice()) {
            Ok(sys) => sys,
            Err(e) => {
                return Err(HostError::Decode(e));
            },
        };
        let sys_name = match read_remote_string(ctx, &sys.name) {
            Ok(s) => s,
            Err(e) => {
                return Err(e);
            },
        };
        raw.push(sys);
        values.push(SystemValue { stage: sys.stage, name: sys_name });
        i += 1;
    }
    Ok((bx, raw, RegisterValue { name, version, systems: values }))
}

/// Frees a decoded registration record through the engine: issues its
/// deallocation calls in the protocol's leaf-to-root order — name,
/// version, each system's name in ascending index order, the systems
/// buffer, then the container — stopping at the first engine failure.
/// Every call issued is appended, in order, to `issued`: on success the
/// full sequence, on failure the non-empty prefix ending at the failing
/// call, with nothing issued after it.
pub fn free_register_box_remote(
    ctx: &mut EngineCtx,
    box_offset: u32,
    bx: PluginBox<PluginRegister>,
    els: &Vec<PluginSystem>,
    issued: &mut Vec<FreeCall>,
) -> (r: Result<(), HostError>)
    ensures
        r is Ok ==> final(issued)@ == old(issued)@ + register_box_free_calls(
            bx,
            box_offset,
            els@,
        ),
        exists|t: int|
            0 <= t <= register_box_free_calls(bx, box_offset, els@).len() && final(issued)@ == old(
                issued,
            )@ + register_box_free_calls(bx, box_offset, els@).subrange(0, t),
        r is Err ==> final(issued)@.len() > old(issued)@.len(),
        r matches Err(e) ==> e == HostError::MissingExport || e == HostError::CallFailed,
{
    let mut calls = collect_register_free_calls(&bx.boxed, els);
    calls.push(FreeCall { offset: box_offset, size: bx.layout.size, align: bx.layout.align });
    proof {
        assert(calls@ =~= register_box_free_calls(bx, box_offset, els@));
    }
    let n: usize = calls.len();
    let mut t: usize = 0;
    while t < n
        invariant
            t <= n,
            n == calls@.len(),
            n >= 1,
            calls@ == register_box_free_calls(bx, box_offset, els@),
            issued@ == old(issued)@ + calls@.subrange(0, t as int),
        decreases n - t,
    {
        let c = calls[t];
        issued.push(c);
        proof {
            assert(issued@ =~= old(issued)@ + calls@.subrange(0, t + 1));
        }
        match wasm_free_unchecked(ctx, c.offset, c.size, c.align) {
            Ok(_) => {},
            Err(e) => {
                return Err(e);
            },
        }
        t += 1;
    }
    proof {
        assert(calls@.subrange(0, n as int) =~= calls@);
    }
    Ok(())
}

} // verus!
