use gguf_switchboard::gguf_integrity::{check_gguf_prefix, GgufIntegrityError, IntegrityCheck, GGUF_MAGIC};

fn put_string(buf: &mut Vec<u8>, s: &str) {
    buf.extend((s.len() as u64).to_le_bytes());
    buf.extend(s.as_bytes());
}

/// One F32 tensor of 64 values plus a Q4_K tensor of 256 values.
fn gguf_bytes(alignment_kv: Option<u32>, with_data: bool) -> Vec<u8> {
    let mut b = Vec::new();
    b.extend(GGUF_MAGIC.to_le_bytes());
    b.extend(3u32.to_le_bytes());
    b.extend(2u64.to_le_bytes());
    let kvs = 1 + u64::from(alignment_kv.is_some());
    b.extend(kvs.to_le_bytes());
    put_string(&mut b, "general.architecture");
    b.extend(8u32.to_le_bytes());
    put_string(&mut b, "qwen3");
    if let Some(a) = alignment_kv {
        put_string(&mut b, "general.alignment");
        b.extend(4u32.to_le_bytes());
        b.extend(a.to_le_bytes());
    }
    put_string(&mut b, "a");
    b.extend(1u32.to_le_bytes());
    b.extend(64u64.to_le_bytes());
    b.extend(0u32.to_le_bytes());
    b.extend(0u64.to_le_bytes());
    put_string(&mut b, "b");
    b.extend(1u32.to_le_bytes());
    b.extend(256u64.to_le_bytes());
    b.extend(12u32.to_le_bytes());
    b.extend(256u64.to_le_bytes());
    let align = u64::from(alignment_kv.unwrap_or(32));
    let padded = (b.len() as u64).div_ceil(align) * align;
    b.resize(padded as usize, 0);
    if with_data {
        b.extend(vec![0u8; 256 + 144]);
    }
    b
}

/// The verdict on a whole file held in memory.
fn check(bytes: &[u8]) -> Result<(), GgufIntegrityError> {
    match check_gguf_prefix(bytes, bytes.len() as u64) {
        IntegrityCheck::Complete(r) => r,
        IntegrityCheck::NeedMore => panic!("the whole file was given"),
    }
}

#[test]
fn complete_file_passes() {
    assert_eq!(check(&gguf_bytes(None, true)), Ok(()));
}

#[test]
fn honours_custom_alignment() {
    assert_eq!(check(&gguf_bytes(Some(64), true)), Ok(()));
}

#[test]
fn file_missing_its_tail_is_truncated() {
    let mut bytes = gguf_bytes(None, true);
    bytes.truncate(bytes.len() - 100);
    match check(&bytes) {
        Err(GgufIntegrityError::Truncated { file_bytes, required_bytes }) => assert_eq!(required_bytes - file_bytes, 100),
        other => panic!("expected Truncated, got {other:?}"),
    }
}

#[test]
fn header_only_file_is_truncated() {
    assert!(matches!(check(&gguf_bytes(None, false)), Err(GgufIntegrityError::Truncated { .. })));
}

#[test]
fn cut_inside_the_tensor_table_is_header_damage() {
    let mut bytes = gguf_bytes(None, false);
    bytes.truncate(90);
    assert!(matches!(check(&bytes), Err(GgufIntegrityError::HeaderDamaged(_))));
}

#[test]
fn non_gguf_is_rejected() {
    assert_eq!(check(b"not a gguf file at all, sorry"), Err(GgufIntegrityError::NotGguf));
}

#[test]
fn absurd_counts_do_not_allocate() {
    let mut b = Vec::new();
    b.extend(GGUF_MAGIC.to_le_bytes());
    b.extend(3u32.to_le_bytes());
    b.extend(u64::MAX.to_le_bytes());
    b.extend(0u64.to_le_bytes());
    assert!(matches!(check(&b), Err(GgufIntegrityError::HeaderDamaged(_))));
}

#[test]
fn a_short_prefix_of_a_longer_file_asks_for_more() {
    let bytes = gguf_bytes(None, true);
    assert!(matches!(check_gguf_prefix(&bytes[..40], bytes.len() as u64), IntegrityCheck::NeedMore));
    assert!(matches!(check_gguf_prefix(&bytes[..bytes.len() - 400], bytes.len() as u64), IntegrityCheck::Complete(Ok(()))));
}

#[test]
fn unsupported_version_is_header_damage() {
    let mut bytes = gguf_bytes(None, true);
    bytes[4] = 9;
    assert_eq!(check(&bytes), Err(GgufIntegrityError::HeaderDamaged("unsupported version 9".to_string())));
}
