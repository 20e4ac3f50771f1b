use ssimulacra2_vulkan::oracle_dump::{parse_dump, DumpError, DUMP_MAGIC};

fn header(dtype: u32, x: u32, y: u32, ch: u32, payload: u64) -> Vec<u8> {
    let mut v = Vec::new();
    for w in [DUMP_MAGIC, dtype, x, y, ch, x] {
        v.extend_from_slice(&w.to_le_bytes());
    }
    v.extend_from_slice(&payload.to_le_bytes());
    v.extend_from_slice(&[0u8; 16]);
    v
}

#[test]
fn f32_dump_yields_bit_patterns() {
    let mut b = header(4, 2, 1, 1, 8);
    b.extend_from_slice(&1.5f32.to_le_bytes());
    b.extend_from_slice(&(-0.25f32).to_le_bytes());
    let d = parse_dump(&b).unwrap();
    assert_eq!((d.dtype, d.xsize, d.ysize, d.channels), (4, 2, 1, 1));
    let vals: Vec<f32> = d.words32.iter().map(|w| f32::from_bits(*w)).collect();
    assert_eq!(vals, vec![1.5f32, -0.25]);
    assert!(d.words64.is_empty());
}

#[test]
fn f64_and_u32_dumps() {
    let mut b = header(8, 1, 1, 6, 16);
    b.extend_from_slice(&0.125f64.to_le_bytes());
    b.extend_from_slice(&3.0f64.to_le_bytes());
    let d = parse_dump(&b).unwrap();
    let vals: Vec<f64> = d.words64.iter().map(|w| f64::from_bits(*w)).collect();
    assert_eq!(vals, vec![0.125, 3.0]);
    let mut c = header(3, 1, 1, 1, 4);
    c.extend_from_slice(&5u32.to_le_bytes());
    assert_eq!(parse_dump(&c).unwrap().words32, vec![5u32]);
}

#[test]
fn malformed_dumps_are_refused() {
    assert_eq!(parse_dump(&[0u8; 47]).unwrap_err(), DumpError::TooShort);
    let mut b = header(4, 1, 1, 1, 0);
    b[0] = 0;
    assert_eq!(parse_dump(&b).unwrap_err(), DumpError::BadMagic(0x31443200));
    let short = header(4, 1, 1, 1, 4);
    assert_eq!(parse_dump(&short).unwrap_err(), DumpError::PayloadSizeMismatch);
    let mut odd = header(5, 1, 1, 1, 4);
    odd.extend_from_slice(&[0u8; 4]);
    assert_eq!(parse_dump(&odd).unwrap_err(), DumpError::UnsupportedDtype(5));
}
