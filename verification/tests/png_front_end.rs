use ssimulacra2_vulkan::cpu::{
    alpha_is_fully_opaque, decode_png_bytes, decode_png_bytes_ingest, interleave_rgb,
    planes_from_frame, png_chunk_present, png_profile_chunk, DecodeError, FrameFault, FrameInfo,
};

const SIG: [u8; 8] = [0x89, b'P', b'N', b'G', 0x0d, 0x0a, 0x1a, 0x0a];

fn chunk(kind: &[u8; 4], data: &[u8]) -> Vec<u8> {
    let mut v = (data.len() as u32).to_be_bytes().to_vec();
    v.extend_from_slice(kind);
    v.extend_from_slice(data);
    v.extend_from_slice(&[0, 0, 0, 0]); // CRC is not inspected by the scan
    v
}

fn stream(chunks: &[Vec<u8>]) -> Vec<u8> {
    let mut v = SIG.to_vec();
    for c in chunks {
        v.extend_from_slice(c);
    }
    v
}

fn encode(w: u32, h: u32, color: png::ColorType, depth: png::BitDepth, data: &[u8], gamma: bool) -> Vec<u8> {
    let mut out = Vec::new();
    {
        let mut enc = png::Encoder::new(&mut out, w, h);
        enc.set_color(color);
        enc.set_depth(depth);
        if gamma {
            enc.set_source_gamma(png::ScaledFloat::new(0.45455));
        }
        let mut wr = enc.write_header().unwrap();
        wr.write_image_data(data).unwrap();
    }
    out
}

#[test]
fn profile_chunks_are_found_in_priority_order() {
    let ihdr = chunk(b"IHDR", &[0u8; 13]);
    let gama = chunk(b"gAMA", &[0, 0, 0xb1, 0x8f]);
    let chrm = chunk(b"cHRM", &[0u8; 32]);
    let iccp = chunk(b"iCCP", b"name\0\0zz");
    let iend = chunk(b"IEND", &[]);
    let plain = stream(&[ihdr.clone(), iend.clone()]);
    assert_eq!(png_profile_chunk(&plain), None);
    let g = stream(&[ihdr.clone(), chrm.clone(), gama.clone(), iend.clone()]);
    assert_eq!(png_profile_chunk(&g), Some("gAMA"));
    let c = stream(&[ihdr.clone(), chrm.clone(), iend.clone()]);
    assert_eq!(png_profile_chunk(&c), Some("cHRM"));
    let i = stream(&[ihdr.clone(), gama.clone(), iccp.clone(), iend.clone()]);
    assert_eq!(png_profile_chunk(&i), Some("iCCP"));
}

#[test]
fn chunk_scan_stops_at_iend_and_at_truncation() {
    let ihdr = chunk(b"IHDR", &[0u8; 13]);
    let gama = chunk(b"gAMA", &[0, 0, 0xb1, 0x8f]);
    let iend = chunk(b"IEND", &[]);
    let after_end = stream(&[ihdr.clone(), iend.clone(), gama.clone()]);
    assert_eq!(png_profile_chunk(&after_end), None);
    // a gAMA chunk whose data runs past the end of the stream is not counted
    let mut cut = stream(&[ihdr.clone(), gama.clone()]);
    cut.truncate(cut.len() - 6);
    assert!(!png_chunk_present(&cut, b"gAMA"));
    // the chunk type alone (no data or CRC yet) still counts once its data fits
    let mut tail = stream(&[ihdr.clone()]);
    tail.extend_from_slice(&0u32.to_be_bytes());
    tail.extend_from_slice(b"cHRM");
    assert!(png_chunk_present(&tail, b"cHRM"));
    assert_eq!(png_profile_chunk(&[]), None);
    assert_eq!(png_profile_chunk(&SIG), None);
}

#[test]
fn rgb_png_decodes_to_plane_major_samples() {
    // 2x1: (10,20,30) (40,50,60)
    let bytes = encode(2, 1, png::ColorType::Rgb, png::BitDepth::Eight, &[10, 20, 30, 40, 50, 60], false);
    let img = decode_png_bytes(&bytes).unwrap();
    assert_eq!((img.w, img.h), (2, 1));
    assert_eq!(img.rgb, vec![10, 40, 20, 50, 30, 60]);
    assert!(img.alpha.is_none());
}

#[test]
fn gray_png_is_replicated_into_three_planes() {
    let bytes = encode(3, 1, png::ColorType::Grayscale, png::BitDepth::Eight, &[0, 128, 255], false);
    let img = decode_png_bytes(&bytes).unwrap();
    assert_eq!(img.rgb, vec![0, 128, 255, 0, 128, 255, 0, 128, 255]);
    assert!(img.alpha.is_none());
}

#[test]
fn rgba_png_yields_an_alpha_plane() {
    let bytes = encode(2, 1, png::ColorType::Rgba, png::BitDepth::Eight, &[1, 2, 3, 255, 4, 5, 6, 7], false);
    let img = decode_png_bytes(&bytes).unwrap();
    assert_eq!(img.rgb, vec![1, 4, 2, 5, 3, 6]);
    let a = img.alpha.unwrap();
    assert_eq!(a, vec![255, 7]);
    assert!(!alpha_is_fully_opaque(&a));
    assert!(alpha_is_fully_opaque(&[255, 255]));
    assert!(alpha_is_fully_opaque(&[]));
}

#[test]
fn unsupported_layouts_are_refused() {
    let sixteen = encode(1, 1, png::ColorType::Rgb, png::BitDepth::Sixteen, &[0; 6], false);
    assert!(matches!(decode_png_bytes(&sixteen), Err(DecodeError::Layout(FrameFault::NotEightBit(16)))));
    let ga = encode(1, 1, png::ColorType::GrayscaleAlpha, png::BitDepth::Eight, &[9, 9], false);
    assert!(matches!(decode_png_bytes(&ga), Err(DecodeError::Layout(FrameFault::UnsupportedColor(4)))));
    assert!(matches!(decode_png_bytes(b"not a png at all"), Err(DecodeError::Info(_))));
}

#[test]
fn gamma_chunk_is_refused_for_scoring_but_ingested_for_normalising() {
    let bytes = encode(1, 1, png::ColorType::Rgb, png::BitDepth::Eight, &[7, 8, 9], true);
    assert!(matches!(decode_png_bytes(&bytes), Err(DecodeError::ProfileChunk("gAMA"))));
    let img = decode_png_bytes_ingest(&bytes).unwrap();
    assert_eq!(img.rgb, vec![7, 8, 9]);
}

#[test]
fn frame_layout_checks_come_in_order() {
    let buf = vec![0u8; 12];
    let f = FrameInfo { width: 2, height: 2, color_code: 2, bit_depth: 8 };
    assert!(matches!(planes_from_frame(2, 3, &f, &buf), Err(FrameFault::SizeMismatch)));
    let g = FrameInfo { width: 2, height: 2, color_code: 3, bit_depth: 16 };
    assert!(matches!(planes_from_frame(2, 2, &g, &buf), Err(FrameFault::NotEightBit(16))));
    let h = FrameInfo { width: 2, height: 2, color_code: 6, bit_depth: 8 };
    assert!(matches!(planes_from_frame(2, 2, &h, &buf), Err(FrameFault::BufferTooSmall)));
    assert!(planes_from_frame(2, 2, &f, &buf).is_ok());
}

#[test]
fn interleaved_planes_encode_and_decode_to_themselves() {
    let planes: Vec<u8> = (0u8..12).collect(); // 2x2, three planes
    let rgb = interleave_rgb(&planes, 4);
    assert_eq!(rgb, vec![0, 4, 8, 1, 5, 9, 2, 6, 10, 3, 7, 11]);
    let bytes = encode(2, 2, png::ColorType::Rgb, png::BitDepth::Eight, &rgb, false);
    assert_eq!(decode_png_bytes(&bytes).unwrap().rgb, planes);
}

#[test]
fn iccp_is_refused_by_both_policies() {
    let plain = encode(1, 1, png::ColorType::Rgb, png::BitDepth::Eight, &[1, 2, 3], false);
    // splice an iCCP chunk in after the IHDR chunk (8-byte signature + 25-byte IHDR)
    let mut bytes = plain[..33].to_vec();
    bytes.extend_from_slice(&chunk(b"iCCP", b"icc\0\0zz"));
    bytes.extend_from_slice(&plain[33..]);
    assert!(matches!(decode_png_bytes(&bytes), Err(DecodeError::ProfileChunk("iCCP"))));
    assert!(matches!(decode_png_bytes_ingest(&bytes), Err(DecodeError::ProfileChunk("iCCP"))));
    assert!(decode_png_bytes(&plain).is_ok());
}
