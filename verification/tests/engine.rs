//! Tests of the host side running against a real guest instance: a tiny
//! wasm module whose linear memory is initialised, via a data segment,
//! with a byte image the library's own encoder produced, and whose
//! deallocation entry point traps for offsets at or beyond a chosen
//! bound — so a call that reaches the guest with the wrong offset is
//! visible as a failed call.

use quill_sys::engine::{
    free_register_box_remote, load_guest, read_register_remote, wasm_free, wasm_free_unchecked,
    EngineCtx, HostError,
};
use quill_sys::guest::build_register;
use quill_sys::mem::GuestMem;
use quill_sys::raw::{Layout, PluginString, SystemStage};
use wasmer::sys::NativeEngineExt;

fn small_engine() -> wasmer::Engine {
    // The default tunables reserve a multi-gigabyte static region per
    // linear memory; force the dynamic style with small guards so the
    // guest fits in a constrained test environment.
    let mut engine = wasmer::Engine::default();
    engine.set_tunables(wasmer::sys::BaseTunables {
        static_memory_bound: wasmer::Pages(0),
        static_memory_offset_guard_size: 0x1_0000,
        dynamic_memory_offset_guard_size: 0x1_0000,
    });
    engine
}

/// A guest module with one page of memory holding `image` at offset 0,
/// and a deallocation entry point that traps exactly when the offset it
/// is handed is `trap_at` or beyond.
fn guest_wat(image: &[u8], trap_at: u32) -> String {
    let mut data = String::new();
    for b in image {
        data.push_str(&format!("\\{:02x}", b));
    }
    format!(
        "(module\n  (memory (export \"memory\") 1 1)\n  (data (i32.const 0) \"{}\")\n  (func (export \"__quill_free\") (param i32 i32 i32)\n    (if (i32.ge_u (local.get 0) (i32.const {})) (then unreachable))))",
        data, trap_at
    )
}

fn load(image: &[u8], trap_at: u32) -> EngineCtx {
    load_guest(small_engine(), guest_wat(image, trap_at).as_bytes()).unwrap()
}

#[test]
fn engine_register_round_trip_and_free() {
    // The guest side of the protocol, producing the byte image.
    let mut gm = GuestMem::new();
    let systems = vec![(SystemStage::Tick, String::from("tick_system"))];
    let (box_offset, bx, _els) = build_register(&mut gm, "demo", "1.0.0", &systems).unwrap();

    // A guest whose memory holds that image, and whose deallocation entry
    // point accepts exactly the offsets inside it.
    let mut ctx = load(&gm.data, gm.data.len() as u32);

    // The host reads the record back through the engine.
    let (bx2, raw, value) = read_register_remote(&ctx, box_offset).unwrap();
    assert_eq!(bx2, bx);
    assert_eq!(value.name, "demo");
    assert_eq!(value.version, "1.0.0");
    assert_eq!(value.systems.len(), 1);
    assert_eq!(value.systems[0].stage, SystemStage::Tick);
    assert_eq!(value.systems[0].name, "tick_system");

    // The host frees it leaf to root; every call lands inside the image,
    // so the guest accepts all five.
    let mut issued = Vec::new();
    free_register_box_remote(&mut ctx, box_offset, bx2, &raw, &mut issued).unwrap();
    assert_eq!(issued.len(), 5);
    assert_eq!(issued[0].offset, bx.boxed.name.ptr);
    assert_eq!(issued[1].offset, bx.boxed.version.ptr);
    assert_eq!(issued[2].offset, raw[0].name.ptr);
    assert_eq!(issued[3].offset, bx.boxed.systems.elements);
    assert_eq!(issued[4].offset, box_offset);
}

#[test]
fn engine_to_string_reads_guest_memory() {
    let ctx = load(&[b'd', b'e', b'm', b'o', 0xFF, 0xFE], 100);
    let rec = PluginString { ptr: 0, len: 4, layout: Layout { size: 4, align: 1 } };
    assert_eq!(rec.to_string(&ctx), Some(String::from("demo")));

    // Invalid UTF-8 yields a decode failure, not a panic.
    let bad = PluginString { ptr: 4, len: 2, layout: Layout { size: 2, align: 1 } };
    assert_eq!(bad.to_string(&ctx), None);

    // A range outside linear memory is a failed read.
    let far = PluginString { ptr: u32::MAX - 8, len: 8, layout: Layout { size: 8, align: 1 } };
    assert_eq!(far.to_string(&ctx), None);
}

#[test]
fn engine_free_calls_reach_the_guest() {
    let mut ctx = load(&[], 100);
    assert_eq!(wasm_free_unchecked(&mut ctx, 16, 4, 4), Ok(()));
    let mut issued = Vec::new();
    assert_eq!(wasm_free(Layout { size: 8, align: 1 }, &mut ctx, 32, &mut issued), Ok(()));
    assert_eq!(issued.len(), 1);
    assert_eq!(issued[0].offset, 32);
    assert_eq!(issued[0].size, 8);
    assert_eq!(issued[0].align, 1);
    // An offset in the guest's trapping range fails the call: the offset
    // argument really reached the guest.
    assert_eq!(wasm_free_unchecked(&mut ctx, 200, 4, 1), Err(HostError::CallFailed));
}

#[test]
fn engine_load_failures_are_integration_errors() {
    // No memory export.
    assert_eq!(
        load_guest(small_engine(), b"(module)").unwrap_err(),
        HostError::MissingExport
    );
    // Memory but no deallocation entry point.
    assert_eq!(
        load_guest(small_engine(), b"(module (memory (export \"memory\") 1 1))").unwrap_err(),
        HostError::MissingExport
    );
    // Bytes that are no module at all.
    assert_eq!(
        load_guest(small_engine(), b"not wasm").unwrap_err(),
        HostError::InvalidModule
    );
}

#[test]
fn engine_failures_are_told_apart() {
    let ctx = load(&[], 100);
    // A record outside the guest's linear memory is a failed read.
    assert_eq!(
        read_register_remote(&ctx, u32::MAX - 60).unwrap_err(),
        HostError::MemoryAccess
    );
    // A deallocation entry point that traps on everything is a failed
    // call, not a panic; the container call is still logged.
    let mut trapping = load(&[], 0);
    assert_eq!(wasm_free_unchecked(&mut trapping, 0, 4, 1), Err(HostError::CallFailed));
    let bx = quill_sys::raw::PluginBox {
        boxed: quill_sys::raw::PluginRegister {
            name: PluginString { ptr: 0, len: 0, layout: Layout { size: 0, align: 1 } },
            version: PluginString { ptr: 1, len: 0, layout: Layout { size: 0, align: 1 } },
            systems: quill_sys::raw::PluginSliceAlloc {
                len: 0,
                elements: 2,
                layout: Layout { size: 0, align: 4 },
            },
        },
        layout: Layout { size: 56, align: 4 },
    };
    let mut issued = Vec::new();
    assert_eq!(bx.free_ptr_to(8, &mut trapping, &mut issued), Err(HostError::CallFailed));
    assert_eq!(issued.len(), 1);
    assert_eq!(issued[0].offset, 8);
    assert_eq!(issued[0].size, 56);
    assert_eq!(issued[0].align, 4);
}
