use wasm_store::dylink::{dylink_info_parse, DylinkInfo, WasmReader};
use wasm_store::error::PARSE;

const HEADER: [u8; 8] = [0, 0x61, 0x73, 0x6d, 1, 0, 0, 0];

fn section(id: u8, contents: &[u8]) -> Vec<u8> {
    let mut bytes = vec![id, contents.len() as u8];
    bytes.extend(contents);
    bytes
}

fn custom(name: &str, contents: &[u8]) -> Vec<u8> {
    let mut bytes = vec![name.len() as u8];
    bytes.extend(name.as_bytes());
    bytes.extend(contents);
    section(0, &bytes)
}

fn module(sections: &[Vec<u8>]) -> Vec<u8> {
    let mut bytes = HEADER.to_vec();
    for section in sections {
        bytes.extend(section);
    }
    bytes
}

fn parse(bytes: &[u8]) -> Option<(u32, u32, u32, u32)> {
    match dylink_info_parse(bytes) {
        Ok(info) => {
            Some((info.memory_size, info.memory_align, info.table_size, info.table_align))
        }
        Err(failure) => {
            assert_eq!(
                failure,
                (PARSE, "failed to parse dylink section of Wasm module".to_string())
            );
            None
        }
    }
}

#[test]
fn memory_information_is_found() {
    let info = section(1, &[0xe5, 0x8e, 0x26, 2, 3, 4]);
    let bytes = module(&[custom("dylink.0", &info)]);
    assert!(matches!(
        dylink_info_parse(&bytes),
        Ok(DylinkInfo { memory_size: 624_485, memory_align: 2, table_size: 3, table_align: 4 })
    ));
}

#[test]
fn memory_information_is_found_behind_other_things() {
    let info = section(1, &[1, 2, 3, 4]);
    let mut subsections = section(2, &[9, 9, 9]);
    subsections.extend(&info);
    let bytes = module(&[
        section(1, &[0]),
        custom("name", &[1, 2]),
        custom("dylink.0", &section(3, &[])),
        custom("dylink.0", &subsections),
        vec![5],
    ]);
    assert_eq!(parse(&bytes), Some((1, 2, 3, 4)));
}

#[test]
fn a_module_needs_its_header() {
    let info = custom("dylink.0", &section(1, &[1, 2, 3, 4]));
    let mut bytes = module(&[info]);
    assert_eq!(parse(&bytes), Some((1, 2, 3, 4)));
    bytes[4] = 2;
    assert_eq!(parse(&bytes), None);
    assert_eq!(parse(&HEADER[..7]), None);
    assert_eq!(parse(&[]), None);
}

#[test]
fn a_module_needs_memory_information() {
    assert_eq!(parse(&HEADER), None);
    assert_eq!(parse(&module(&[custom("dylink.1", &section(1, &[1, 2, 3, 4]))])), None);
    assert_eq!(parse(&module(&[custom("dylink.0", &section(2, &[1, 2, 3, 4]))])), None);
    assert_eq!(parse(&module(&[section(1, &section(1, &[1, 2, 3, 4]))])), None);
}

#[test]
fn memory_information_is_exactly_four_numbers() {
    assert_eq!(parse(&module(&[custom("dylink.0", &section(1, &[1, 2, 3]))])), None);
    assert_eq!(parse(&module(&[custom("dylink.0", &section(1, &[1, 2, 3, 4, 5]))])), None);
    assert_eq!(parse(&module(&[custom("dylink.0", &section(1, &[1, 2, 3, 0x84]))])), None);
}

#[test]
fn sections_must_lie_inside_the_module() {
    let mut bytes = module(&[custom("dylink.0", &section(1, &[1, 2, 3, 4]))]);
    bytes.pop();
    assert_eq!(parse(&bytes), None);
    assert_eq!(parse(&module(&[vec![1, 5, 0]])), None);
    assert_eq!(parse(&module(&[vec![1]])), None);
    assert_eq!(parse(&module(&[section(0, &[9, b'd'])])), None);
    assert_eq!(parse(&module(&[custom("dylink.0", &[1, 9, 1])])), None);
    assert_eq!(parse(&module(&[custom("dylink.0", &[1])])), None);
}

#[test]
fn numbers_have_at_most_32_bits() {
    let read = |bytes: &[u8]| {
        let mut reader = WasmReader { data: bytes, offset: 0, size: bytes.len() };
        reader.read_uleb128()
    };
    assert_eq!(read(&[0]), Some(0));
    assert_eq!(read(&[0x7f]), Some(127));
    assert_eq!(read(&[0x80, 1]), Some(128));
    assert_eq!(read(&[0x80, 0]), Some(0));
    assert_eq!(read(&[0xff, 0xff, 0xff, 0xff, 0x0f]), Some(u32::MAX));
    assert_eq!(read(&[0xff, 0xff, 0xff, 0xff, 0x1f]), None);
    assert_eq!(read(&[0x80, 0x80, 0x80, 0x80, 0x80, 0]), None);
    assert_eq!(read(&[0x80]), None);
    assert_eq!(read(&[]), None);
}

#[test]
fn a_reader_stays_inside_its_bounds() {
    let mut reader = WasmReader { data: &[1, 2, 3], offset: 0, size: 2 };
    assert_eq!(reader.read_u8(), Some(1));
    assert_eq!(reader.read_u8(), Some(2));
    assert_eq!(reader.read_u8(), None);
    assert_eq!(reader.offset, 2);
}
