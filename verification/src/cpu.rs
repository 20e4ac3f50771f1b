//! PNG front end on bytes: the colour-management chunk policy and the
//! extraction of 8-bit sample planes from a decoded frame.
use vstd::prelude::*;
use std::io::Cursor;
use crate::bytes::{be_u32_at, read_be_u32};

verus! {

/// Chunk type `iCCP` (embedded ICC profile).
pub open spec fn iccp() -> Seq<u8> {
    seq![105u8, 67u8, 67u8, 80u8]
}

/// Chunk type `gAMA` (image gamma).
pub open spec fn gama() -> Seq<u8> {
    seq![103u8, 65u8, 77u8, 65u8]
}

/// Chunk type `cHRM` (primary chromaticities).
pub open spec fn chrm() -> Seq<u8> {
    seq![99u8, 72u8, 82u8, 77u8]
}

/// Chunk type `IEND` (end of the chunk list).
pub open spec fn iend() -> Seq<u8> {
    seq![73u8, 69u8, 78u8, 68u8]
}

/// Walking the chunk list of `b` from offset `pos` (each chunk being a
/// big-endian length, a 4-byte type, the data and a 4-byte CRC) meets a
/// complete chunk of type `name` before the list ends, is truncated, or
/// reaches `IEND`.
pub open spec fn walk_finds(b: Seq<u8>, name: Seq<u8>, pos: int) -> bool
    decreases b.len() + 4 - pos,
{
    if pos < 0 || pos + 8 > b.len() {
        false
    } else {
        let len = be_u32_at(b, pos);
        if pos + 8 + len > b.len() {
            false
        } else if b.subrange(pos + 4, pos + 8) == name {
            true
        } else if b.subrange(pos + 4, pos + 8) == iend() {
            false
        } else {
            walk_finds(b, name, pos + 12 + len)
        }
    }
}

/// Whether the PNG byte stream `b` carries a chunk of type `name` in its
/// chunk list (which starts after the 8-byte signature).
pub open spec fn has_chunk(b: Seq<u8>, name: Seq<u8>) -> bool {
    walk_finds(b, name, 8)
}

/// The first colour-management chunk found, tried in the order iCCP, gAMA,
/// cHRM, by name.
pub open spec fn profile_chunk_spec(b: Seq<u8>) -> Option<Seq<char>> {
    if has_chunk(b, iccp()) {
        Some("iCCP"@)
    } else if has_chunk(b, gama()) {
        Some("gAMA"@)
    } else if has_chunk(b, chrm()) {
        Some("cHRM"@)
    } else {
        None
    }
}

fn type_is(bytes: &[u8], at: usize, name: &[u8; 4]) -> (r: bool)
    requires
        at + 4 <= bytes@.len(),
    ensures
        r == (bytes@.subrange(at as int, at + 4) == name@),
{
    let r = bytes[at] == name[0] && bytes[at + 1] == name[1] && bytes[at + 2] == name[2]
        && bytes[at + 3] == name[3];
    proof {
        let s = bytes@.subrange(at as int, at + 4);
        if r {
            assert(s =~= name@);
        } else {
            assert(s.len() == 4 && name@.len() == 4);
            if s == name@ {
                assert(s[0] == name@[0] && s[1] == name@[1] && s[2] == name@[2] && s[3]
                    == name@[3]);
            }
        }
    }
    r
}

/// Walks the chunk list of a PNG byte stream and reports whether a complete
/// chunk of type `name` occurs before `IEND` or before the list is cut short.
pub fn png_chunk_present(bytes: &[u8], name: &[u8; 4]) -> (r: bool)
    ensures
        r == has_chunk(bytes@, name@),
{
    let n = bytes.len();
    let iend_name: [u8; 4] = [73u8, 69u8, 78u8, 68u8];
    assert(iend_name@ =~= iend());
    let mut pos: usize = 8;
    while pos <= n && n - pos >= 8
        invariant
            n == bytes@.len(),
            iend_name@ == iend(),
            walk_finds(bytes@, name@, pos as int) == walk_finds(bytes@, name@, 8),
        decreases n + 4 - pos,
    {
        let len = read_be_u32(bytes, pos) as usize;
        if len > n - pos - 8 {
            return false;
        }
        if type_is(bytes, pos + 4, name) {
            return true;
        }
        if type_is(bytes, pos + 4, &iend_name) {
            return false;
        }
        let next = pos + 8 + len;
        if n - next < 4 {
            proof {
                assert(!walk_finds(bytes@, name@, next + 4));
            }
            return false;
        }
        pos = next + 4;
    }
    false
}

/// Minimal chunk scan for colour-managed PNGs: returns the name of the first
/// colour-management chunk present, trying iCCP, then gAMA, then cHRM, each
/// by a full walk of the chunk list from the start.
pub fn png_profile_chunk(bytes: &[u8]) -> (r: Option<&'static str>)
    ensures
        r.is_some() == profile_chunk_spec(bytes@).is_some(),
        r matches Some(s) ==> s@ == profile_chunk_spec(bytes@).unwrap(),
{
    let iccp_name: [u8; 4] = [105u8, 67u8, 67u8, 80u8];
    let gama_name: [u8; 4] = [103u8, 65u8, 77u8, 65u8];
    let chrm_name: [u8; 4] = [99u8, 72u8, 82u8, 77u8];
    assert(iccp_name@ =~= iccp());
    assert(gama_name@ =~= gama());
    assert(chrm_name@ =~= chrm());
    if png_chunk_present(bytes, &iccp_name) {
        Some("iCCP")
    } else if png_chunk_present(bytes, &gama_name) {
        Some("gAMA")
    } else if png_chunk_present(bytes, &chrm_name) {
        Some("cHRM")
    } else {
        None
    }
}

/// Whether the PNG byte stream `b` is refused by the scoring path's profile
/// policy (any colour-management chunk) or, for ingestion, only by an iCCP
/// chunk (gAMA and cHRM do not remap pixels).
pub open spec fn profile_refusal(b: Seq<u8>, ingest: bool) -> Option<Seq<char>> {
    if ingest {
        if has_chunk(b, iccp()) {
            Some("iCCP"@)
        } else {
            None
        }
    } else {
        profile_chunk_spec(b)
    }
}

#[verifier::external_type_specification]
#[verifier::external_body]
pub struct ExPngDecodingError(png::DecodingError);

/// What a decoded frame reports about itself: its size, its PNG colour-type
/// code (0 gray, 2 RGB, 3 indexed, 4 gray+alpha, 6 RGBA) and its bit depth.
#[derive(Clone, Copy, Debug, PartialEq, Eq, Structural)]
pub struct FrameInfo {
    pub width: u32,
    pub height: u32,
    pub color_code: u8,
    pub bit_depth: u8,
}

/// Why a decoded frame cannot be turned into sample planes.
#[derive(Clone, Copy, Debug, PartialEq, Eq, Structural)]
pub enum FrameFault {
    /// The frame's size differs from the image header's.
    SizeMismatch,
    /// The frame is not 8 bits per sample (the depth is carried).
    NotEightBit(u8),
    /// The colour type is not gray, RGB or RGBA (the PNG code is carried).
    UnsupportedColor(u8),
    /// The decoder's buffer does not hold `width * height` pixels of the
    /// frame's colour type (or three planes of them would not be addressable).
    BufferTooSmall,
}

/// The first frame of a PNG stream as the decoder hands it over: the size
/// announced by the image header, what the frame reports about itself, and
/// the decoder's output buffer (rows of packed samples).
pub struct PngFrame {
    pub info_w: u32,
    pub info_h: u32,
    pub frame: FrameInfo,
    pub buf: Vec<u8>,
}

/// Where decoding a PNG stream stopped.
pub enum PngFailure {
    /// Reading the header and metadata up to the image data failed.
    Info(png::DecodingError),
    /// Decoding the first frame failed.
    Frame(png::DecodingError),
}

/// What decoding the first frame of a PNG stream yields, by stage.
pub enum PngOutcome {
    HeaderError,
    FrameError,
    Decoded { info_w: u32, info_h: u32, frame: FrameInfo, buf: Seq<u8> },
}

/// The outcome of decoding the first frame of the PNG stream `bytes` with
/// the `png` crate's default decoder (no transformations, default limits).
pub uninterp spec fn png_first_frame(bytes: Seq<u8>) -> PngOutcome;

/// Decodes the first frame of an in-memory PNG stream with the `png` crate:
/// `png::Decoder::new` over a cursor on `bytes`, `Decoder::read_info`, then
/// `Reader::next_frame` into a buffer of `Reader::output_buffer_size` bytes.
/// The header size comes from `Reader::info`, the frame's own size, colour
/// type code and bit depth from the returned `OutputInfo`. The contract
/// claims only that the outcome is a function of the bytes alone (decoding
/// is deterministic), named `png_first_frame`; nothing is claimed about the
/// pixel data itself.
#[verifier::external_body]
fn png_decode_first_frame(bytes: &[u8]) -> (r: Result<PngFrame, PngFailure>)
    ensures
        match png_first_frame(bytes@) {
            PngOutcome::HeaderError => r matches Err(PngFailure::Info(_)),
            PngOutcome::FrameError => r matches Err(PngFailure::Frame(_)),
            PngOutcome::Decoded { info_w, info_h, frame, buf } => r matches Ok(f) && f.info_w
                == info_w && f.info_h == info_h && f.frame == frame && f.buf@ == buf,
        },
{
    let mut reader = match png::Decoder::new(Cursor::new(bytes)).read_info() {
        Ok(rd) => rd,
        Err(e) => return Err(PngFailure::Info(e)),
    };
    let (info_w, info_h) = (reader.info().width, reader.info().height);
    let mut buf = vec![0u8; reader.output_buffer_size()];
    match reader.next_frame(&mut buf) {
        Ok(o) => {
            let frame = FrameInfo { width: o.width, height: o.height, color_code: o.color_type as u8, bit_depth: o.bit_depth as u8 };
            Ok(PngFrame { info_w, info_h, frame, buf })
        },
        Err(e) => Err(PngFailure::Frame(e)),
    }
}

/// Why a PNG byte stream cannot be decoded into sample planes.
#[derive(Debug)]
pub enum DecodeError {
    /// A colour-management chunk the policy refuses (its type name).
    ProfileChunk(&'static str),
    /// The PNG header could not be read.
    Info(png::DecodingError),
    /// The first frame could not be decoded.
    Frame(png::DecodingError),
    /// The decoded frame has an unsupported layout.
    Layout(FrameFault),
}

/// 8-bit sample planes of an image: three plane-major colour planes (gray
/// replicated into all three) and an alpha plane when the image has one.
#[derive(Debug)]
pub struct DecodedImage {
    pub w: usize,
    pub h: usize,
    pub rgb: Vec<u8>,
    pub alpha: Option<Vec<u8>>,
}

/// The mathematical content of a [`DecodedImage`].
pub struct DecodedView {
    pub w: nat,
    pub h: nat,
    pub rgb: Seq<u8>,
    pub alpha: Option<Seq<u8>>,
}

impl View for DecodedImage {
    type V = DecodedView;

    open spec fn view(&self) -> DecodedView {
        DecodedView {
            w: self.w as nat,
            h: self.h as nat,
            rgb: self.rgb@,
            alpha: match self.alpha {
                Some(a) => Some(a@),
                None => None,
            },
        }
    }
}

/// Samples per pixel of the accepted colour types (gray 1, RGB 3, RGBA 4).
pub open spec fn samples_of(color_code: u8) -> int {
    if color_code == 0 {
        1
    } else if color_code == 2 {
        3
    } else {
        4
    }
}

/// The three colour planes of `n` pixels stored interleaved in `buf` with
/// `stride` samples per pixel (R, G, B first).
pub open spec fn color_planes(buf: Seq<u8>, n: int, stride: int) -> Seq<u8> {
    Seq::new(
        (3 * n) as nat,
        |j: int|
            if j < n {
                buf[stride * j]
            } else if j < 2 * n {
                buf[stride * (j - n) + 1]
            } else {
                buf[stride * (j - 2 * n) + 2]
            },
    )
}

/// A gray plane of `n` pixels replicated into three planes.
pub open spec fn gray_planes(buf: Seq<u8>, n: int) -> Seq<u8> {
    Seq::new(
        (3 * n) as nat,
        |j: int|
            if j < n {
                buf[j]
            } else if j < 2 * n {
                buf[j - n]
            } else {
                buf[j - 2 * n]
            },
    )
}

/// The alpha plane of `n` RGBA pixels stored interleaved in `buf`.
pub open spec fn alpha_plane(buf: Seq<u8>, n: int) -> Seq<u8> {
    Seq::new(n as nat, |i: int| buf[4 * i + 3])
}

/// The planes extracted from a decoded frame whose image header announced
/// `info_w x info_h` pixels, or why there are none.
pub open spec fn frame_planes(info_w: u32, info_h: u32, f: FrameInfo, buf: Seq<u8>) -> Result<
    DecodedView,
    FrameFault,
> {
    let n = info_w * info_h;
    if f.width != info_w || f.height != info_h {
        Err(FrameFault::SizeMismatch)
    } else if f.bit_depth != 8 {
        Err(FrameFault::NotEightBit(f.bit_depth))
    } else if !(f.color_code == 0 || f.color_code == 2 || f.color_code == 6) {
        Err(FrameFault::UnsupportedColor(f.color_code))
    } else if n * samples_of(f.color_code) > buf.len() || 3 * n > usize::MAX {
        Err(FrameFault::BufferTooSmall)
    } else {
        Ok(
            DecodedView {
                w: info_w as nat,
                h: info_h as nat,
                rgb: if f.color_code == 0 {
                    gray_planes(buf, n)
                } else {
                    color_planes(buf, n, samples_of(f.color_code))
                },
                alpha: if f.color_code == 6 {
                    Some(alpha_plane(buf, n))
                } else {
                    None
                },
            },
        )
    }
}

/// Whether `r` is the outcome `spec` describes.
pub open spec fn planes_outcome(r: Result<DecodedImage, FrameFault>, spec: Result<DecodedView, FrameFault>) -> bool {
    match spec {
        Ok(v) => r matches Ok(img) && img@ == v,
        Err(f) => r matches Err(g) && g == f,
    }
}

fn gray_to_planes(buf: &Vec<u8>, n: usize) -> (out: Vec<u8>)
    requires
        n <= buf@.len(),
        3 * n <= usize::MAX,
    ensures
        out@ == gray_planes(buf@, n as int),
{
    let mut out: Vec<u8> = vec![0u8; 3 * n];
    let mut i: usize = 0;
    while i < n
        invariant
            n <= buf@.len(),
            3 * n <= usize::MAX,
            i <= n,
            out@.len() == 3 * n,
            forall|j: int| 0 <= j < i ==> out@[j] == buf@[j],
            forall|j: int| n <= j < n + i ==> out@[j] == buf@[j - n],
            forall|j: int| 2 * n <= j < 2 * n + i ==> out@[j] == buf@[j - 2 * n],
        decreases n - i,
    {
        let v = buf[i];
        out.set(i, v);
        out.set(n + i, v);
        out.set(2 * n + i, v);
        i = i + 1;
    }
    assert forall|j: int| 0 <= j < 3 * n implies #[trigger] out@[j] == gray_planes(buf@, n as int)[j] by {

    }
    assert(out@ =~= gray_planes(buf@, n as int));
    out
}

fn interleaved_to_planes(buf: &Vec<u8>, n: usize, stride: usize) -> (out: Vec<u8>)
    requires
        stride == 3 || stride == 4,
        n * stride <= buf@.len(),
    ensures
        out@ == color_planes(buf@, n as int, stride as int),
{
    let len = buf.len();
    assert(3 * n <= n * stride) by (nonlinear_arith)
        requires
            stride == 3 || stride == 4,
    ;
    let mut out: Vec<u8> = vec![0u8; 3 * n];
    let mut i: usize = 0;
    while i < n
        invariant
            stride == 3 || stride == 4,
            n * stride <= buf@.len(),
            i <= n,
            out@.len() == 3 * n,
            forall|j: int| 0 <= j < i ==> out@[j] == buf@[stride * j],
            forall|j: int| n <= j < n + i ==> out@[j] == buf@[stride * (j - n) + 1],
            forall|j: int| 2 * n <= j < 2 * n + i ==> out@[j] == buf@[stride * (j - 2 * n) + 2],
        decreases n - i,
    {
        assert(stride * i + 2 < n * stride && 3 * n <= n * stride) by (nonlinear_arith)
            requires
                i < n,
                stride == 3 || stride == 4,
        ;
        assert(buf@.len() == buf.len());
        let base = stride * i;
        out.set(i, buf[base]);
        out.set(n + i, buf[base + 1]);
        out.set(2 * n + i, buf[base + 2]);
        i = i + 1;
    }
    assert forall|j: int| 0 <= j < 3 * n implies #[trigger] out@[j] == color_planes(
        buf@,
        n as int,
        stride as int,
    )[j] by {

    }
    assert(out@ =~= color_planes(buf@, n as int, stride as int));
    out
}

fn alpha_of(buf: &Vec<u8>, n: usize) -> (out: Vec<u8>)
    requires
        n * 4 <= buf@.len(),
    ensures
        out@ == alpha_plane(buf@, n as int),
{
    let mut out: Vec<u8> = Vec::new();
    let mut i: usize = 0;
    while i < n
        invariant
            n * 4 <= buf@.len(),
            i <= n,
            out@.len() == i,
            forall|j: int| 0 <= j < i ==> out@[j] == buf@[4 * j + 3],
        decreases n - i,
    {
        assert(4 * i + 3 < n * 4) by (nonlinear_arith)
            requires
                i < n,
        ;
        assert(buf@.len() == buf.len());
        out.push(buf[4 * i + 3]);
        i = i + 1;
    }
    assert(out@ =~= alpha_plane(buf@, n as int));
    out
}

/// Turns a decoded 8-bit frame into sample planes: gray is replicated into
/// three planes, RGB and RGBA are split into plane-major colour planes (and
/// an alpha plane for RGBA); any other layout is refused.
pub fn planes_from_frame(info_w: u32, info_h: u32, frame: &FrameInfo, buf: &Vec<u8>) -> (r: Result<
    DecodedImage,
    FrameFault,
>)
    ensures
        planes_outcome(r, frame_planes(info_w, info_h, *frame, buf@)),
{
    if frame.width != info_w || frame.height != info_h {
        return Err(FrameFault::SizeMismatch);
    }
    if frame.bit_depth != 8 {
        return Err(FrameFault::NotEightBit(frame.bit_depth));
    }
    let code = frame.color_code;
    if !(code == 0 || code == 2 || code == 6) {
        return Err(FrameFault::UnsupportedColor(code));
    }
    let samples: u128 = if code == 0 {
        1
    } else if code == 2 {
        3
    } else {
        4
    };
    assert((info_w as u128) * (info_h as u128) <= 0x1_0000_0000_0000_0000u128) by (nonlinear_arith)
        requires
            info_w <= u32::MAX,
            info_h <= u32::MAX,
    ;
    let n_wide: u128 = (info_w as u128) * (info_h as u128);
    if n_wide * samples > buf.len() as u128 || 3 * n_wide > usize::MAX as u128 {
        return Err(FrameFault::BufferTooSmall);
    }
    let n = n_wide as usize;
    let w = info_w as usize;
    let h = info_h as usize;
    if code == 0 {
        let rgb = gray_to_planes(buf, n);
        Ok(DecodedImage { w, h, rgb, alpha: None })
    } else if code == 2 {
        let rgb = interleaved_to_planes(buf, n, 3);
        Ok(DecodedImage { w, h, rgb, alpha: None })
    } else {
        let rgb = interleaved_to_planes(buf, n, 4);
        let a = alpha_of(buf, n);
        Ok(DecodedImage { w, h, rgb, alpha: Some(a) })
    }
}

/// The outcome of decoding the PNG stream `bytes` into sample planes under
/// the profile policy (`ingest` tolerates gAMA and cHRM), stated as a
/// predicate on a candidate result `r`.
pub open spec fn decode_outcome(bytes: Seq<u8>, ingest: bool, r: Result<DecodedImage, DecodeError>) -> bool {
    match profile_refusal(bytes, ingest) {
        Some(name) => r matches Err(DecodeError::ProfileChunk(s)) && s@ == name,
        None => match png_first_frame(bytes) {
            PngOutcome::HeaderError => r matches Err(DecodeError::Info(_)),
            PngOutcome::FrameError => r matches Err(DecodeError::Frame(_)),
            PngOutcome::Decoded { info_w, info_h, frame, buf } => match frame_planes(
                info_w,
                info_h,
                frame,
                buf,
            ) {
                Ok(v) => r matches Ok(img) && img@ == v,
                Err(f) => r matches Err(DecodeError::Layout(g)) && g == f,
            },
        },
    }
}

/// The colour-management policy of decoding, by chunks present: decoding
/// for scoring refuses a stream because of a profile chunk exactly when it
/// carries any of iCCP, gAMA or cHRM, naming one it carries (iCCP before
/// gAMA before cHRM); decoding for normalisation refuses exactly the
/// streams that carry iCCP; and a stream with neither gAMA nor cHRM decodes
/// the same way under both policies.
pub proof fn lemma_colour_policy(b: Seq<u8>, r: Result<DecodedImage, DecodeError>)
    ensures
        decode_outcome(b, false, r) ==> ((r matches Err(DecodeError::ProfileChunk(_))) <==> (
        has_chunk(b, iccp()) || has_chunk(b, gama()) || has_chunk(b, chrm()))),
        decode_outcome(b, false, r) ==> (r matches Err(DecodeError::ProfileChunk(n)) ==> {
            ||| n@ == "iCCP"@ && has_chunk(b, iccp())
            ||| n@ == "gAMA"@ && has_chunk(b, gama()) && !has_chunk(b, iccp())
            ||| n@ == "cHRM"@ && has_chunk(b, chrm()) && !has_chunk(b, iccp()) && !has_chunk(
                b,
                gama(),
            )
        }),
        decode_outcome(b, true, r) ==> ((r matches Err(DecodeError::ProfileChunk(_))) <==> has_chunk(
            b,
            iccp(),
        )),
        !has_chunk(b, gama()) && !has_chunk(b, chrm()) ==> (decode_outcome(b, false, r)
            <==> decode_outcome(b, true, r)),
{
}

fn decode_with_policy(bytes: &[u8], ingest: bool) -> (r: Result<DecodedImage, DecodeError>)
    ensures
        decode_outcome(bytes@, ingest, r),
{
    let refused: Option<&'static str> = if ingest {
        let iccp_name: [u8; 4] = [105u8, 67u8, 67u8, 80u8];
        assert(iccp_name@ =~= iccp());
        if png_chunk_present(bytes, &iccp_name) {
            Some("iCCP")
        } else {
            None
        }
    } else {
        png_profile_chunk(bytes)
    };
    if let Some(name) = refused {
        return Err(DecodeError::ProfileChunk(name));
    }
    match png_decode_first_frame(bytes) {
        Err(PngFailure::Info(e)) => Err(DecodeError::Info(e)),
        Err(PngFailure::Frame(e)) => Err(DecodeError::Frame(e)),
        Ok(f) => match planes_from_frame(f.info_w, f.info_h, &f.frame, &f.buf) {
            Ok(img) => Ok(img),
            Err(fault) => Err(DecodeError::Layout(fault)),
        },
    }
}

/// Decodes an 8-bit PNG stream for scoring: colour-managed streams (any of
/// iCCP, gAMA, cHRM) are refused, then the first frame is decoded and split
/// into sample planes.
pub fn decode_png_bytes(bytes: &[u8]) -> (r: Result<DecodedImage, DecodeError>)
    ensures
        decode_outcome(bytes@, false, r),
        (r matches Err(DecodeError::ProfileChunk(_))) <==> (has_chunk(bytes@, iccp()) || has_chunk(
            bytes@,
            gama(),
        ) || has_chunk(bytes@, chrm())),
{
    let r = decode_with_policy(bytes, false);
    proof {
        lemma_colour_policy(bytes@, r);
    }
    r
}

/// Decodes an 8-bit PNG stream for normalisation: only an iCCP chunk is
/// refused (gAMA and cHRM do not remap pixels), then the first frame is
/// decoded and split into sample planes.
pub fn decode_png_bytes_ingest(bytes: &[u8]) -> (r: Result<DecodedImage, DecodeError>)
    ensures
        decode_outcome(bytes@, true, r),
        (r matches Err(DecodeError::ProfileChunk(_))) <==> has_chunk(bytes@, iccp()),
{
    let r = decode_with_policy(bytes, true);
    proof {
        lemma_colour_policy(bytes@, r);
    }
    r
}

/// Whether every alpha sample is fully opaque (255, which converts to
/// exactly 1.0).
pub fn alpha_is_fully_opaque(alpha: &[u8]) -> (r: bool)
    ensures
        r == (forall|i: int| 0 <= i < alpha@.len() ==> alpha@[i] == 255u8),
{
    let mut i: usize = 0;
    while i < alpha.len()
        invariant
            i <= alpha@.len(),
            forall|j: int| 0 <= j < i ==> alpha@[j] == 255u8,
        decreases alpha@.len() - i,
    {
        if alpha[i] != 255u8 {
            return false;
        }
        i = i + 1;
    }
    true
}

/// Pixel-interleaved RGB (`R G B R G B ...`) of three plane-major colour
/// planes of `n` pixels each.
pub open spec fn interleaved_rgb(planes: Seq<u8>, n: int) -> Seq<u8> {
    Seq::new((3 * n) as nat, |j: int| planes[(j % 3) * n + j / 3])
}

/// Interleaves three plane-major colour planes of `n` pixels into packed
/// 8-bit RGB pixels, the layout of a truecolor PNG row stream.
pub fn interleave_rgb(planes: &[u8], n: usize) -> (r: Vec<u8>)
    requires
        planes@.len() == 3 * n,
    ensures
        r@ == interleaved_rgb(planes@, n as int),
{
    let mut out: Vec<u8> = Vec::new();
    let mut i: usize = 0;
    while i < n
        invariant
            planes@.len() == 3 * n,
            i <= n,
            out@.len() == 3 * i,
            forall|j: int| 0 <= j < 3 * i ==> #[trigger] out@[j] == planes@[(j % 3) * n + j / 3],
        decreases n - i,
    {
        let ghost prev = out@;
        out.push(planes[i]);
        out.push(planes[n + i]);
        out.push(planes[2 * n + i]);
        proof {
            assert forall|j: int| 0 <= j < 3 * (i + 1) implies #[trigger] out@[j] == planes@[(j
                % 3) * n + j / 3] by {
                if j < 3 * i {
                    assert(out@[j] == prev[j]);
                } else {
                    assert(j / 3 == i) by (nonlinear_arith)
                        requires
                            3 * i <= j < 3 * i + 3,
                    ;
                    assert(j % 3 == j - 3 * i) by (nonlinear_arith)
                        requires
                            3 * i <= j < 3 * i + 3,
                    ;
                    let c = j % 3;
                    if j == 3 * i {
                        assert(c * n == 0) by (nonlinear_arith)
                            requires
                                c == 0,
                        ;
                    } else if j == 3 * i + 1 {
                        assert(c * n == n) by (nonlinear_arith)
                            requires
                                c == 1,
                        ;
                    } else {
                        assert(c * n == 2 * n) by (nonlinear_arith)
                            requires
                                c == 2,
                        ;
                    }
                }
            }
        }
        i = i + 1;
    }
    assert(out@ =~= interleaved_rgb(planes@, n as int));
    out
}

/// Interleaving is undone by decoding: a non-interlaced 8-bit RGB frame
/// whose rows are the interleaved planes of a `w x h` image yields exactly
/// those planes and no alpha. (This is why rewriting decoded images as
/// truecolor PNGs is pixel-exact.)
pub proof fn lemma_interleave_then_decode(w: u32, h: u32, planes: Seq<u8>)
    requires
        planes.len() == 3 * (w * h),
        3 * (w * h) <= usize::MAX,
    ensures
        frame_planes(
            w,
            h,
            FrameInfo { width: w, height: h, color_code: 2, bit_depth: 8 },
            interleaved_rgb(planes, w * h),
        ) == Ok::<DecodedView, FrameFault>(
            DecodedView { w: w as nat, h: h as nat, rgb: planes, alpha: None },
        ),
{
    let n = w * h;
    let buf = interleaved_rgb(planes, n);
    let got = color_planes(buf, n, 3);
    assert forall|j: int| 0 <= j < 3 * n implies #[trigger] got[j] == planes[j] by {
        if j < n {
            assert((3 * j) % 3 == 0 && (3 * j) / 3 == j) by (nonlinear_arith);
        } else if j < 2 * n {
            let i = j - n;
            assert((3 * i + 1) % 3 == 1 && (3 * i + 1) / 3 == i) by (nonlinear_arith)
                requires
                    i >= 0,
            ;
        } else {
            let i = j - 2 * n;
            assert((3 * i + 2) % 3 == 2 && (3 * i + 2) / 3 == i) by (nonlinear_arith)
                requires
                    i >= 0,
            ;
        }
    }
    assert(got =~= planes);
}

/// Gray images reach the colour pipeline as three identical planes: every
/// pixel of the second and third planes equals the same pixel of the first.
pub proof fn lemma_gray_replicated(info_w: u32, info_h: u32, f: FrameInfo, buf: Seq<u8>)
    requires
        f.color_code == 0,
        frame_planes(info_w, info_h, f, buf) is Ok,
    ensures
        ({
            let v = frame_planes(info_w, info_h, f, buf).unwrap();
            let n = info_w * info_h;
            &&& v.rgb.len() == 3 * n
            &&& v.alpha is None
            &&& forall|i: int|
                0 <= i < n ==> #[trigger] v.rgb[i] == v.rgb[n + i] && v.rgb[i] == v.rgb[2 * n + i]
        }),
{
}

/// The normalisation policy is more permissive than the scoring policy:
/// every stream that ingestion refuses for a colour-management chunk, the
/// scoring path refuses too (and for the same chunk, iCCP).
pub proof fn lemma_ingest_refuses_less(b: Seq<u8>)
    ensures
        profile_refusal(b, true) is Some ==> profile_refusal(b, false) == profile_refusal(b, true),
        profile_refusal(b, true) is Some <==> has_chunk(b, iccp()),
{
}

} // verus!
