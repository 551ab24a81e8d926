use wasm_zero::mem::finish_call;
use wasm_zero::mem::is_aligned;
use wasm_zero::mem::read_buffer;
use wasm_zero::mem::unarchived;
use wasm_zero::mem::ErrorCode;
use wasm_zero::mem::ALIGNMENT;
use wasm_zero::mem::HEADER;
use wasm_zero::mem::MAX_BUFFER_SIZE;
use wasm_zero::wasm::leb_u32;

#[test]
fn buffers_are_read_back() {
    let mut memory = vec![7u8; 100];
    memory[36..41].copy_from_slice(b"hello");
    assert_eq!(finish_call(&mut memory, 20, Some(5)), 0);
    assert_eq!(&memory[20..24], &[5, 0, 0, 0]);
    assert_eq!(memory[19], 7);
    assert_eq!(memory[24], 7);
    assert_eq!(read_buffer(&memory, 20), b"hello");
}

#[test]
fn results_that_do_not_fit_leave_no_trace() {
    let mut memory = vec![7u8; 40];
    assert_eq!(finish_call(&mut memory, 0, None), 255);
    assert_eq!(memory, vec![7u8; 40]);
}

#[test]
fn archives_cross_the_boundary() {
    let value = vec!["one".to_string(), "a longer second text".to_string()];
    let archive = rkyv::to_bytes::<rkyv::rancor::Error>(&value).unwrap();
    let mut memory = rkyv::util::AlignedVec::<16>::new();
    memory.extend_from_slice(&[0u8; HEADER]);
    memory.extend_from_slice(&archive);
    let mut memory = memory.into_vec();
    assert_eq!(finish_call(&mut memory, 0, Some(archive.len() as u32)), 0);
    let mut aligned = rkyv::util::AlignedVec::<16>::new();
    aligned.extend_from_slice(read_buffer(&memory, 0));
    let back = rkyv::from_bytes::<Vec<String>, rkyv::rancor::Error>(&aligned);
    assert_eq!(unarchived(back.ok()).unwrap(), value);
    let broken = rkyv::from_bytes::<Vec<String>, rkyv::rancor::Error>(&aligned[..8]);
    assert_eq!(unarchived(broken.ok()).unwrap_err(), ErrorCode::UnarchivingError);
}

#[test]
fn codes_are_those_of_the_bindings() {
    assert_eq!(ErrorCode::Success.code(), 0);
    assert_eq!(ErrorCode::UnarchivingError.code(), 254);
    assert_eq!(ErrorCode::ArchivingError.code(), 255);
}

#[test]
fn aligned_buffers_have_aligned_payloads() {
    assert_eq!(HEADER % ALIGNMENT, 0);
    assert_eq!(MAX_BUFFER_SIZE, 512 * 1024);
    assert!(is_aligned(32 + HEADER));
    assert!(is_aligned(0));
    assert!(!is_aligned(8));
}

#[test]
fn leb_numbers_end_where_they_end() {
    let mut pos = 1;
    assert_eq!(leb_u32(&[9, 0xe5, 0x8e, 0x26, 9], &mut pos), Ok(624485));
    assert_eq!(pos, 4);
    let mut pos = 0;
    assert_eq!(leb_u32(&[0xff, 0xff, 0xff, 0xff, 0x7f], &mut pos), Ok(u32::MAX));
    assert_eq!(pos, 5);
    let mut pos = 0;
    assert_eq!(leb_u32(&[0x80; 6], &mut pos).unwrap_err(), "leb128 overflow");
    assert_eq!(pos, 5);
    let mut pos = 0;
    assert_eq!(leb_u32(&[0x80, 0x80], &mut pos).unwrap_err(), "truncated wasm (leb128)");
    assert_eq!(pos, 2);
    let mut pos = 7;
    assert_eq!(leb_u32(&[1], &mut pos).unwrap_err(), "truncated wasm (leb128)");
    assert_eq!(pos, 7);
}
