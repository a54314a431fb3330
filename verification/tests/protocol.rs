//! Tests of the marshalling protocol against the instrumented guest-memory
//! model: round trips, decode failures, and the exact deallocation-call
//! discipline of the free protocol.

use quill_sys::codec::{
    decode_layout, decode_string_rec, decode_system_rec, encode_layout, encode_string_rec,
    encode_system_rec, DecodeError,
};
use quill_sys::guest::{
    build_register, new_owned_string, new_plain_slice, new_system, new_systems_slice, plugin_free,
    prepare_log, register_into_box,
};
use quill_sys::host::{
    collect_register_free_calls, free_plain_slice, free_register, free_register_box, free_string,
    free_system, free_systems_slice, read_log_level, read_plain_slice, read_register,
    read_register_box, read_string_value, read_systems,
};
use quill_sys::mem::{FreeError, GuestMem};
use quill_sys::raw::{Layout, LogLevel, PluginSlice, PluginSliceAlloc, PluginString, PluginSystem, SystemStage};

#[test]
fn stage_bytes_decode_exactly() {
    assert!(matches!(SystemStage::try_from(1), Ok(SystemStage::Pre)));
    assert!(matches!(SystemStage::try_from(2), Ok(SystemStage::Tick)));
    assert!(matches!(SystemStage::try_from(3), Ok(SystemStage::HandleEvents)));
    assert!(matches!(SystemStage::try_from(4), Ok(SystemStage::SendPackets)));
    assert!(matches!(SystemStage::try_from(5), Ok(SystemStage::CleanUp)));
    for stage in [
        SystemStage::Pre,
        SystemStage::Tick,
        SystemStage::HandleEvents,
        SystemStage::SendPackets,
        SystemStage::CleanUp,
    ] {
        let round = SystemStage::try_from(stage.to_byte()).unwrap();
        assert_eq!(round, stage);
    }
}

#[test]
fn invalid_stage_bytes_are_errors_not_defaults() {
    assert!(SystemStage::try_from(0).is_err());
    assert!(SystemStage::try_from(6).is_err());
    assert!(SystemStage::try_from(255).is_err());
}

#[test]
fn level_bytes_decode_exactly() {
    assert!(matches!(LogLevel::try_from(1), Ok(LogLevel::Debug)));
    assert!(matches!(LogLevel::try_from(2), Ok(LogLevel::Info)));
    assert_eq!(LogLevel::Debug.to_byte(), 1);
    assert_eq!(LogLevel::Info.to_byte(), 2);
}

#[test]
fn invalid_level_bytes_are_errors() {
    assert!(LogLevel::try_from(0).is_err());
    assert!(LogLevel::try_from(3).is_err());
    assert_eq!(read_log_level(0), Err(DecodeError::InvalidLevel));
    assert_eq!(read_log_level(3), Err(DecodeError::InvalidLevel));
    assert!(read_log_level(2).is_ok());
}

#[test]
fn layout_encodes_little_endian() {
    let l = Layout { size: 0x0102_0304, align: 4 };
    let bytes = encode_layout(l);
    assert_eq!(bytes, vec![0x04, 0x03, 0x02, 0x01, 4, 0, 0, 0]);
    assert_eq!(decode_layout(&bytes), l);
}

#[test]
fn string_record_codec_round_trip() {
    let rec = PluginString { ptr: 64, len: 5, layout: Layout { size: 5, align: 1 } };
    let bytes = encode_string_rec(rec);
    assert_eq!(bytes.len(), 16);
    assert_eq!(decode_string_rec(&bytes), rec);
}

#[test]
fn system_record_codec_round_trip_and_bad_stage() {
    let rec = PluginSystem {
        stage: SystemStage::Tick,
        name: PluginString { ptr: 32, len: 11, layout: Layout { size: 11, align: 1 } },
    };
    let mut bytes = encode_system_rec(rec);
    assert_eq!(bytes.len(), 20);
    assert_eq!(bytes[0], 2);
    assert_eq!(decode_system_rec(&bytes), Ok(rec));
    bytes[0] = 0;
    assert_eq!(decode_system_rec(&bytes), Err(DecodeError::InvalidStage));
    bytes[0] = 6;
    assert_eq!(decode_system_rec(&bytes), Err(DecodeError::InvalidStage));
}

#[test]
fn string_round_trip_and_free() {
    let mut mem = GuestMem::new();
    let rec = new_owned_string(&mut mem, "hello, плагин ✔");
    assert_eq!(rec.len as usize, "hello, плагин ✔".len());
    assert_eq!(rec.layout.size, rec.len);
    assert_eq!(rec.layout.align, 1);
    let back = read_string_value(&mem, &rec).unwrap();
    assert_eq!(back, "hello, плагин ✔");
    assert_eq!(mem.live_count(), 1);
    free_string(&mut mem, rec).unwrap();
    assert_eq!(mem.live_count(), 0);
    assert_eq!(mem.free_log.len(), 1);
    assert_eq!(mem.free_log[0].offset, rec.ptr);
    assert_eq!(mem.free_log[0].size, rec.len);
    assert_eq!(mem.free_log[0].align, 1);
}

#[test]
fn empty_string_round_trip() {
    let mut mem = GuestMem::new();
    let rec = new_owned_string(&mut mem, "");
    assert_eq!(rec.len, 0);
    assert_eq!(read_string_value(&mem, &rec).unwrap(), "");
    free_string(&mut mem, rec).unwrap();
    assert_eq!(mem.live_count(), 0);
}

#[test]
fn double_free_is_detected_by_the_instrumented_allocator() {
    let mut mem = GuestMem::new();
    let rec = new_owned_string(&mut mem, "once");
    assert!(plugin_free(&mut mem, rec.ptr, rec.layout.size, rec.layout.align).is_ok());
    assert_eq!(
        plugin_free(&mut mem, rec.ptr, rec.layout.size, rec.layout.align),
        Err(FreeError::NotAllocated)
    );
    assert_eq!(mem.free_log.len(), 1);
}

#[test]
fn wrong_layout_free_is_detected() {
    let mut mem = GuestMem::new();
    let rec = new_owned_string(&mut mem, "abcd");
    assert_eq!(
        plugin_free(&mut mem, rec.ptr, rec.layout.size + 1, rec.layout.align),
        Err(FreeError::WrongLayout)
    );
    assert_eq!(plugin_free(&mut mem, rec.ptr, rec.layout.size, 2), Err(FreeError::WrongLayout));
    assert!(plugin_free(&mut mem, rec.ptr, rec.layout.size, rec.layout.align).is_ok());
}

#[test]
fn plain_slice_round_trip() {
    let mut mem = GuestMem::new();
    let els = vec![7u32, 0x0102_0304, 0, u32::MAX];
    let rec = new_plain_slice(&mut mem, &els);
    assert_eq!(rec.len, 4);
    assert_eq!(rec.layout.size, 16);
    assert_eq!(rec.layout.align, 4);
    assert_eq!(read_plain_slice(&mem, &rec).unwrap(), els);
    free_plain_slice(&mut mem, rec).unwrap();
    assert_eq!(mem.free_log.len(), 1);
    assert_eq!(mem.free_log[0].offset, rec.elements);
}

#[test]
fn empty_slice_encodes_length_zero_and_frees_with_one_call() {
    let mut mem = GuestMem::new();
    let els: Vec<PluginSystem> = Vec::new();
    let rec = new_systems_slice(&mut mem, &els);
    assert_eq!(rec.len, 0);
    let decoded = read_systems(&mem, &rec).unwrap();
    assert_eq!(decoded.len(), 0);
    assert_eq!(mem.live_count(), 1);
    free_systems_slice(&mut mem, rec, &els).unwrap();
    // Exactly one deallocation call — the backing buffer — and zero
    // element-free calls.
    assert_eq!(mem.free_log.len(), 1);
    assert_eq!(mem.free_log[0].offset, rec.elements);
    assert_eq!(mem.free_log[0].size, rec.layout.size);
    assert_eq!(mem.live_count(), 0);
}

#[test]
fn register_scenario_demo() {
    let mut mem = GuestMem::new();
    let systems = vec![(SystemStage::Tick, String::from("tick_system"))];
    let (box_offset, bx, _els) =
        build_register(&mut mem, "demo", "1.0.0", &systems).unwrap();

    // Host side: decode out of guest memory.
    let (bx2, raw, value) = read_register(&mem, box_offset).unwrap();
    assert_eq!(bx2, bx);
    assert_eq!(value.name, "demo");
    assert_eq!(value.version, "1.0.0");
    assert_eq!(value.systems.len(), 1);
    assert_eq!(value.systems[0].stage, SystemStage::Tick);
    assert_eq!(value.systems[0].name, "tick_system");
    assert_eq!(raw.len(), 1);

    // Host side: free the record (not yet the container). Exactly 4
    // deallocation calls: name, version, the system's name, the
    // systems-slice backing buffer — dependents before parents.
    free_register(&mut mem, bx.boxed, &raw).unwrap();
    assert_eq!(mem.free_log.len(), 4);
    assert_eq!(mem.free_log[0].offset, bx.boxed.name.ptr);
    assert_eq!(mem.free_log[1].offset, bx.boxed.version.ptr);
    assert_eq!(mem.free_log[2].offset, raw[0].name.ptr);
    assert_eq!(mem.free_log[3].offset, bx.boxed.systems.elements);

    // Then the container itself, through the deallocation entry point.
    plugin_free(&mut mem, box_offset, bx.layout.size, bx.layout.align).unwrap();
    assert_eq!(mem.free_log.len(), 5);
    assert_eq!(mem.live_count(), 0);
}

#[test]
fn free_order_is_leaf_to_root() {
    let mut mem = GuestMem::new();
    let systems = vec![
        (SystemStage::Pre, String::from("first")),
        (SystemStage::CleanUp, String::from("second")),
    ];
    let (box_offset, bx, _els) = build_register(&mut mem, "plug", "0.2", &systems).unwrap();
    let (_, raw, _) = read_register(&mem, box_offset).unwrap();

    let calls = collect_register_free_calls(&bx.boxed, &raw);
    assert_eq!(calls.len(), 5);
    free_register_box(&mut mem, box_offset, bx, &raw).unwrap();
    assert_eq!(mem.free_log.len(), 6);
    // Every nested sub-allocation's call comes strictly before its
    // parent's: elements before the slice buffer, everything before the
    // container.
    let slice_call = 4;
    let box_call = 5;
    assert_eq!(mem.free_log[2].offset, raw[0].name.ptr);
    assert_eq!(mem.free_log[3].offset, raw[1].name.ptr);
    assert_eq!(mem.free_log[slice_call].offset, bx.boxed.systems.elements);
    assert_eq!(mem.free_log[box_call].offset, box_offset);
    assert_eq!(mem.free_log[box_call].size, 56);
    assert_eq!(mem.live_count(), 0);
}

#[test]
fn corrupted_stage_byte_fails_register_decode() {
    let mut mem = GuestMem::new();
    let systems = vec![(SystemStage::Tick, String::from("sys"))];
    let (box_offset, bx, _els) = build_register(&mut mem, "p", "1", &systems).unwrap();
    let elem_base = bx.boxed.systems.elements as usize;
    mem.data[elem_base] = 0;
    assert_eq!(read_register(&mem, box_offset).unwrap_err(), DecodeError::InvalidStage);
    mem.data[elem_base] = 6;
    assert_eq!(read_register(&mem, box_offset).unwrap_err(), DecodeError::InvalidStage);
    mem.data[elem_base] = 2;
    assert!(read_register(&mem, box_offset).is_ok());
}

#[test]
fn invalid_utf8_fails_string_decode() {
    let mut mem = GuestMem::new();
    let rec = new_owned_string(&mut mem, "ok");
    mem.data[rec.ptr as usize] = 0xFF;
    assert_eq!(read_string_value(&mem, &rec).unwrap_err(), DecodeError::InvalidUtf8);
}

#[test]
fn out_of_bounds_records_fail_decode() {
    let mem = GuestMem::new();
    assert_eq!(read_register_box(&mem, 1024).unwrap_err(), DecodeError::OutOfBounds);
    let rec = PluginString { ptr: 4096, len: 10, layout: Layout { size: 10, align: 1 } };
    assert_eq!(read_string_value(&mem, &rec).unwrap_err(), DecodeError::OutOfBounds);
}

#[test]
fn transient_reference_allocates_nothing() {
    let mut mem = GuestMem::new();
    let owned = new_owned_string(&mut mem, "message");
    let before = mem.live_count();
    let transient = PluginString::from_borrow(&mem, owned.ptr, owned.len);
    assert_eq!(transient.0.ptr, owned.ptr);
    assert_eq!(transient.0.len, owned.len);
    assert_eq!(mem.live_count(), before);
    let (level_byte, msg_ref) = prepare_log(&mem, LogLevel::Info, owned.ptr, owned.len);
    assert_eq!(level_byte, 2);
    assert_eq!(msg_ref.0.ptr, owned.ptr);
    assert_eq!(mem.live_count(), before);
}

#[test]
fn register_into_box_records_container_layout() {
    let mut mem = GuestMem::new();
    let name = new_owned_string(&mut mem, "n");
    let version = new_owned_string(&mut mem, "v");
    let els: Vec<PluginSystem> = Vec::new();
    let slice = new_systems_slice(&mut mem, &els);
    let reg = quill_sys::raw::PluginRegister { name, version, systems: slice };
    let (offset, bx) = register_into_box(&mut mem, reg);
    assert_eq!(bx.layout, Layout { size: 56, align: 4 });
    assert_eq!(bx.boxed, reg);
    let read_back = read_register_box(&mem, offset).unwrap();
    assert_eq!(read_back, bx);
}

#[test]
fn mixed_system_build_uses_each_stage() {
    let mut mem = GuestMem::new();
    let s1 = new_system(&mut mem, SystemStage::HandleEvents, "events");
    let s2 = new_system(&mut mem, SystemStage::SendPackets, "packets");
    assert_eq!(s1.stage, SystemStage::HandleEvents);
    assert_eq!(s2.stage, SystemStage::SendPackets);
    let slice = new_systems_slice(&mut mem, &vec![s1, s2]);
    assert_eq!(slice.len, 2);
    assert_eq!(slice.layout.size, 40);
    let decoded = read_systems(&mem, &slice).unwrap();
    assert_eq!(decoded.len(), 2);
    assert_eq!(decoded[0], s1);
    assert_eq!(decoded[1], s2);
    assert_eq!(read_string_value(&mem, &decoded[0].name).unwrap(), "events");
    assert_eq!(read_string_value(&mem, &decoded[1].name).unwrap(), "packets");
    // Freeing one system frees exactly its owned name.
    free_system(&mut mem, s1).unwrap();
    assert_eq!(mem.free_log.len(), 1);
    assert_eq!(mem.free_log[0].offset, s1.name.ptr);
}

#[test]
fn out_of_bounds_slices_fail_decode() {
    let mem = GuestMem::new();
    let sl = PluginSliceAlloc { len: 2, elements: 0, layout: Layout { size: 40, align: 4 } };
    assert_eq!(read_systems(&mem, &sl).unwrap_err(), DecodeError::OutOfBounds);
    let pl = PluginSlice { len: 3, elements: 0, layout: Layout { size: 12, align: 4 } };
    assert_eq!(read_plain_slice(&mem, &pl).unwrap_err(), DecodeError::OutOfBounds);
}
