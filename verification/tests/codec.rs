use wasm_demo::codec::{decode, decode_and_log};
use wasm_demo::memory::LinearMemory;

#[test]
fn hello_world_is_logged() {
    let mut mem = LinearMemory::new();
    let ptr = mem.acquire_memory(11);
    mem.write(ptr, "hello world".as_bytes());
    let mut log: Vec<String> = Vec::new();
    mem.decode_and_log(ptr, 11, &mut log);
    assert_eq!(log, vec![String::from("hello world")]);
}

#[test]
fn malformed_bytes_are_not_logged() {
    let mut mem = LinearMemory::new();
    let ptr = mem.acquire_memory(3);
    mem.write(ptr, &[0xFF, 0xFE, 0xFD]);
    let mut log: Vec<String> = Vec::new();
    mem.decode_and_log(ptr, 3, &mut log);
    assert!(log.is_empty());
    assert_eq!(mem.decode(ptr, 3), None);
}

#[test]
fn log_keeps_its_earlier_lines() {
    let mut mem = LinearMemory::new();
    let a = mem.acquire_memory(5);
    let b = mem.acquire_memory(2);
    let c = mem.acquire_memory(6);
    mem.write(a, "first".as_bytes());
    mem.write(b, &[0xC3, 0x28]);
    mem.write(c, "second".as_bytes());
    let mut log: Vec<String> = Vec::new();
    mem.decode_and_log(a, 5, &mut log);
    mem.decode_and_log(b, 2, &mut log);
    mem.decode_and_log(c, 6, &mut log);
    assert_eq!(log, vec![String::from("first"), String::from("second")]);
}

#[test]
fn decode_of_a_part_of_a_region() {
    let mut mem = LinearMemory::new();
    let ptr = mem.acquire_memory(11);
    mem.write(ptr, "hello world".as_bytes());
    assert_eq!(mem.decode(ptr, 5), Some(String::from("hello")));
    assert_eq!(mem.decode(ptr + 6, 5), Some(String::from("world")));
    assert_eq!(mem.decode(ptr + 11, 0), Some(String::new()));
}

#[test]
fn fresh_region_decodes_to_nul_characters() {
    let mut mem = LinearMemory::new();
    let ptr = mem.acquire_memory(2);
    assert_eq!(mem.decode(ptr, 2), Some(String::from("\0\0")));
}

#[test]
fn decode_reads_every_width_of_scalar() {
    let text = "a\u{e9}\u{20ac}\u{1f600}";
    let bytes: Vec<u8> = vec![0x61, 0xC3, 0xA9, 0xE2, 0x82, 0xAC, 0xF0, 0x9F, 0x98, 0x80];
    assert_eq!(decode(&bytes), Some(String::from(text)));
    let mut mem = LinearMemory::new();
    let ptr = mem.acquire_memory(10);
    mem.write(ptr, &bytes);
    let mut log: Vec<String> = Vec::new();
    mem.decode_and_log(ptr, 10, &mut log);
    assert_eq!(log.len(), 1);
    assert_eq!(log[0], text);
    assert_eq!(log[0].chars().count(), 4);
}

#[test]
fn decode_of_no_bytes_is_the_empty_text() {
    assert_eq!(decode(&[]), Some(String::new()));
    let mut log: Vec<String> = Vec::new();
    decode_and_log(&[], &mut log);
    assert_eq!(log, vec![String::new()]);
}

#[test]
fn decode_refuses_malformed_bytes() {
    // A lone continuation byte.
    assert_eq!(decode(&[0x80]), None);
    // A scalar cut short.
    assert_eq!(decode(&[0xE2, 0x82]), None);
    // An overlong encoding of '/'.
    assert_eq!(decode(&[0xC0, 0xAF]), None);
    // A surrogate.
    assert_eq!(decode(&[0xED, 0xA0, 0x80]), None);
    // Beyond the last scalar value.
    assert_eq!(decode(&[0xF4, 0x90, 0x80, 0x80]), None);
    // Well-formed text with one bad byte at its end.
    assert_eq!(decode(&[0x68, 0x69, 0xFF]), None);
}

#[test]
fn decode_and_log_on_plain_bytes() {
    let mut log: Vec<String> = vec![String::from("earlier")];
    decode_and_log(&[0xFF], &mut log);
    assert_eq!(log, vec![String::from("earlier")]);
    decode_and_log("later".as_bytes(), &mut log);
    assert_eq!(log, vec![String::from("earlier"), String::from("later")]);
}

#[test]
fn decode_after_release_of_another_region() {
    let mut mem = LinearMemory::new();
    let a = mem.acquire_memory(4);
    let b = mem.acquire_memory(4);
    mem.write(b, "text".as_bytes());
    mem.release_memory(a, 4);
    assert!(mem.span_is_live(b, 4));
    assert_eq!(mem.decode(b, 4), Some(String::from("text")));
}
