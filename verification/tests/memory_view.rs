use wasm_store::bytes::{get_i32, get_u16, get_u32, put_u32};
use wasm_store::memory::{
    find_memory_minimum, heap_address, serialization_buffer_address, WasmMemoryView,
    MAX_MEMORY_PAGES, MEMORY_PAGE_SIZE,
};

const DATA: [u8; 8] = [1, 2, 3, 4, 0, 0xff, 0xfe, 0xfd];

fn view() -> WasmMemoryView<'static> {
    WasmMemoryView { data: &DATA }
}

#[test]
fn a_view_contains_what_lies_inside() {
    assert!(view().contains(0, 8));
    assert!(view().contains(8, 0));
    assert!(!view().contains(1, 8));
    assert!(!view().contains(9, 0));
    assert!(!view().contains(-1, 1));
    assert!(!view().contains(1, usize::MAX));
}

#[test]
fn a_view_reads_all_or_nothing() {
    let mut bytes = [7; 3];
    assert!(!view().read(6, &mut bytes));
    assert_eq!(bytes, [7; 3]);
    assert!(view().read(5, &mut bytes));
    assert_eq!(bytes, [0xff, 0xfe, 0xfd]);
}

#[test]
fn a_view_reads_little_endian_integers() {
    assert_eq!(view().read_u16(2), Some(0x0403));
    assert_eq!(view().read_u16(6), Some(0xfdfe));
    assert_eq!(view().read_u16(7), None);
    assert_eq!(view().read_u32(0), Some(0x0403_0201));
    assert_eq!(view().read_u32(4), Some(0xfdfe_ff00));
    assert_eq!(view().read_u32(5), None);
    assert_eq!(view().read_u32(-1), None);
}

#[test]
fn a_string_ends_at_the_nearest_nul() {
    assert_eq!(view().string_length(0), Some(4));
    assert_eq!(view().string_length(4), Some(0));
    assert_eq!(view().string_length(5), None);
    assert_eq!(view().string_length(8), None);
    assert_eq!(view().string_length(-1), None);
}

#[test]
fn integers_read_back_as_written() {
    for value in [0, 1, 0xff, 0x100, 0x1234_5678, u32::MAX] {
        assert_eq!(put_u32(value), value.to_le_bytes());
        assert_eq!(get_u32(&put_u32(value), 0), value);
    }
    assert_eq!(get_i32(&[0, 0xff, 0xff, 0xff, 0xff], 1), -1);
    assert_eq!(get_u16(&[0, 2, 1], 1), 0x0102);
}

#[test]
fn the_heap_starts_behind_the_serialization_buffer() {
    assert_eq!(serialization_buffer_address(5000), 5000);
    assert_eq!(heap_address(5000), 6024);
    assert_eq!(MAX_MEMORY_PAGES * MEMORY_PAGE_SIZE, 128 * 1024 * 1024);
}

#[test]
fn the_last_memory_counts() {
    let import = |name: &str, pages| (name.to_string(), pages);
    assert_eq!(find_memory_minimum(&[]), None);
    assert_eq!(find_memory_minimum(&[import("memory", None), import("other", Some(3))]), None);
    assert_eq!(
        find_memory_minimum(&[
            import("memory", Some(1)),
            import("memory", Some(2)),
            import("memory", None),
            import("table", Some(9)),
        ]),
        Some(2)
    );
}
