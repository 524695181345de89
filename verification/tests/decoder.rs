use jpeg_decoder::jpeg_control::JpegControl;
use jpeg_decoder::jpeg_error::JpegError;

// ---------------------------------------------------------------------
// A small encoder for the streams of these tests.
//
// The DC table has the sixteen codes of four bits, code `s` for symbol
// `s`. The AC table has 255 codes of eight bits, code `s` for symbol `s`.
// ---------------------------------------------------------------------

struct BitWriter {
    out: Vec<u8>,
    acc: u8,
    n: u8,
}

impl BitWriter {
    fn new() -> Self {
        BitWriter { out: Vec::new(), acc: 0, n: 0 }
    }

    fn put_bit(&mut self, bit: u8) {
        self.acc = (self.acc << 1) | (bit & 1);
        self.n += 1;
        if self.n == 8 {
            self.out.push(self.acc);
            if self.acc == 0xFF {
                self.out.push(0x00);
            }
            self.acc = 0;
            self.n = 0;
        }
    }

    fn put(&mut self, value: u32, len: u32) {
        for i in (0..len).rev() {
            self.put_bit(((value >> i) & 1) as u8);
        }
    }

    fn finish(mut self) -> Vec<u8> {
        while self.n != 0 {
            self.put_bit(1);
        }
        self.out
    }
}

fn category(v: i32) -> u32 {
    let mut a = v.abs();
    let mut n = 0;
    while a > 0 {
        n += 1;
        a >>= 1;
    }
    n
}

fn amplitude(v: i32, ssss: u32) -> u32 {
    if v >= 0 {
        v as u32
    } else {
        (v + (1 << ssss) - 1) as u32
    }
}

const ZIGZAG_TO_NATURAL: [usize; 64] = [
    0, 1, 8, 16, 9, 2, 3, 10, 17, 24, 32, 25, 18, 11, 4, 5, 12, 19, 26, 33, 40, 48, 41, 34, 27, 20,
    13, 6, 7, 14, 21, 28, 35, 42, 49, 56, 57, 50, 43, 36, 29, 22, 15, 23, 30, 37, 44, 51, 58, 59,
    52, 45, 38, 31, 39, 46, 53, 60, 61, 54, 47, 55, 62, 63,
];

/// Writes one block; `coeffs` holds the quantized coefficients in natural
/// order. Returns the new DC predictor.
fn put_block(w: &mut BitWriter, pred: i32, coeffs: &[i32; 64]) -> i32 {
    let diff = coeffs[0] - pred;
    let ssss = category(diff);
    w.put(ssss, 4);
    w.put(amplitude(diff, ssss), ssss);
    let mut last = 0;
    for z in 1..64 {
        if coeffs[ZIGZAG_TO_NATURAL[z]] != 0 {
            last = z;
        }
    }
    let mut run = 0;
    for z in 1..=last {
        let v = coeffs[ZIGZAG_TO_NATURAL[z]];
        if v == 0 {
            run += 1;
            if run == 16 {
                w.put(0xF0, 8);
                run = 0;
            }
        } else {
            let ssss = category(v);
            w.put(((run as u32) << 4) | ssss, 8);
            w.put(amplitude(v, ssss), ssss);
            run = 0;
        }
    }
    if last < 63 {
        w.put(0x00, 8);
    }
    coeffs[0]
}

fn flat(dc: i32) -> [i32; 64] {
    let mut c = [0i32; 64];
    c[0] = dc;
    c
}

fn segment(marker: u16, payload: &[u8]) -> Vec<u8> {
    let mut s = vec![(marker >> 8) as u8, marker as u8];
    let len = payload.len() + 2;
    s.push((len >> 8) as u8);
    s.push(len as u8);
    s.extend_from_slice(payload);
    s
}

fn dqt_payload(id: u8, value: u8) -> Vec<u8> {
    let mut p = vec![id];
    for _ in 0..64 {
        p.push(value);
    }
    p
}

fn dc_table_payload(id: u8) -> Vec<u8> {
    let mut p = vec![id];
    let mut counts = [0u8; 16];
    counts[3] = 16;
    p.extend_from_slice(&counts);
    for s in 0..16u8 {
        p.push(s);
    }
    p
}

fn ac_table_payload(id: u8) -> Vec<u8> {
    let mut p = vec![0x10 | id];
    let mut counts = [0u8; 16];
    counts[7] = 255;
    p.extend_from_slice(&counts);
    for s in 0..255u16 {
        p.push(s as u8);
    }
    p
}

/// A file with one identity quantization table and one DC and one AC
/// table, all with id 0. `sampling` holds the sampling byte of each
/// component.
fn build_jpeg(width: u16, height: u16, sampling: &[u8], entropy: &[u8]) -> Vec<u8> {
    let mut f = vec![0xFF, 0xD8];
    f.extend(segment(0xFFE0, &[b'J', b'F', b'I', b'F', 0, 1, 1, 0, 0, 1, 0, 1, 0, 0]));
    f.extend(segment(0xFFDB, &dqt_payload(0, 1)));
    let mut sof = vec![8, (height >> 8) as u8, height as u8, (width >> 8) as u8, width as u8];
    sof.push(sampling.len() as u8);
    for (i, hv) in sampling.iter().enumerate() {
        sof.push(i as u8 + 1);
        sof.push(*hv);
        sof.push(0);
    }
    f.extend(segment(0xFFC0, &sof));
    f.extend(segment(0xFFC4, &dc_table_payload(0)));
    f.extend(segment(0xFFC4, &ac_table_payload(0)));
    let mut sos = vec![sampling.len() as u8];
    for i in 0..sampling.len() {
        sos.push(i as u8 + 1);
        sos.push(0x00);
    }
    sos.extend_from_slice(&[0, 63, 0]);
    f.extend(segment(0xFFDA, &sos));
    f.extend_from_slice(entropy);
    f.extend_from_slice(&[0xFF, 0xD9]);
    f
}

fn decode(bytes: Vec<u8>) -> Result<(usize, usize, Vec<u8>), JpegError> {
    let mut jpeg = JpegControl::new();
    jpeg.load(bytes);
    let (w, h, n) = jpeg.parse_markers()?;
    assert_eq!(jpeg.get_dimension(), (w, h));
    assert_eq!(jpeg.get_total_buffer_size(), n);
    assert_eq!(n, w * h * 3);
    let mut out = vec![0u8; n];
    jpeg.decode_image(&mut out)?;
    assert_eq!(out.len(), w * h * 3);
    Ok((w, h, out))
}

fn pixel(out: &[u8], width: usize, x: usize, y: usize) -> (u8, u8, u8) {
    let i = (y * width + x) * 3;
    (out[i], out[i + 1], out[i + 2])
}

// ---------------------------------------------------------------------
// End-to-end scenarios
// ---------------------------------------------------------------------

#[test]
fn grayscale_zero_block_is_mid_grey() {
    let mut w = BitWriter::new();
    put_block(&mut w, 0, &flat(0));
    let (width, height, out) = decode(build_jpeg(8, 8, &[0x11], &w.finish())).unwrap();
    assert_eq!((width, height), (8, 8));
    assert_eq!(out.len(), 192);
    for y in 0..8 {
        for x in 0..8 {
            assert_eq!(pixel(&out, 8, x, y), (128, 128, 128));
        }
    }
}

#[test]
fn grayscale_dc_eight_gives_129() {
    let mut w = BitWriter::new();
    put_block(&mut w, 0, &flat(8));
    let (_, _, out) = decode(build_jpeg(8, 8, &[0x11], &w.finish())).unwrap();
    for y in 0..8 {
        for x in 0..8 {
            assert_eq!(pixel(&out, 8, x, y), (129, 129, 129));
        }
    }
}

#[test]
fn dc_eight_uses_category_four_and_bits_1000() {
    // Symbol 4 (code 0100), amplitude bits 1000, end of block (00000000),
    // then padding with ones.
    let entropy = vec![0b0100_1000, 0b0000_0000];
    let (_, _, out) = decode(build_jpeg(8, 8, &[0x11], &entropy)).unwrap();
    assert!(out.iter().all(|v| *v == 129));
}

#[test]
fn magenta_block_444() {
    let mut w = BitWriter::new();
    put_block(&mut w, 0, &flat(0));
    put_block(&mut w, 0, &flat(1016));
    put_block(&mut w, 0, &flat(1016));
    let (_, _, out) = decode(build_jpeg(8, 8, &[0x11, 0x11, 0x11], &w.finish())).unwrap();
    for y in 0..8 {
        for x in 0..8 {
            assert_eq!(pixel(&out, 8, x, y), (255, 0, 255));
        }
    }
}

#[test]
fn subsampling_422_left_and_right_halves() {
    let mut w = BitWriter::new();
    let p = put_block(&mut w, 0, &flat((200 - 128) * 8));
    put_block(&mut w, p, &flat((50 - 128) * 8));
    put_block(&mut w, 0, &flat(0));
    put_block(&mut w, 0, &flat(0));
    let (_, _, out) = decode(build_jpeg(16, 8, &[0x21, 0x11, 0x11], &w.finish())).unwrap();
    for y in 0..8 {
        for x in 0..16 {
            let expected = if x < 8 { (200, 200, 200) } else { (50, 50, 50) };
            assert_eq!(pixel(&out, 16, x, y), expected);
        }
    }
}

#[test]
fn subsampling_440_top_and_bottom_halves() {
    let mut w = BitWriter::new();
    let p = put_block(&mut w, 0, &flat((200 - 128) * 8));
    put_block(&mut w, p, &flat((50 - 128) * 8));
    put_block(&mut w, 0, &flat(0));
    put_block(&mut w, 0, &flat(0));
    let (_, _, out) = decode(build_jpeg(8, 16, &[0x12, 0x11, 0x11], &w.finish())).unwrap();
    for y in 0..16 {
        for x in 0..8 {
            let expected = if y < 8 { (200, 200, 200) } else { (50, 50, 50) };
            assert_eq!(pixel(&out, 8, x, y), expected);
        }
    }
}

fn reference_rgb(y: i32, cb: i32, cr: i32) -> (u8, u8, u8) {
    let y32 = (y as i64) * 65536;
    let cb1 = (cb as i64) * 256 - 32768;
    let cr1 = (cr as i64) * 256 - 32768;
    let clamp = |v: i64| -> u8 { (v >> 16).clamp(0, 255) as u8 };
    (clamp(y32 + 359 * cr1), clamp(y32 - 88 * cb1 - 183 * cr1), clamp(y32 + 454 * cb1))
}

#[test]
fn subsampling_420_uniform_rectangle() {
    let v = 90;
    let c = 170;
    let mut w = BitWriter::new();
    let mut p = 0;
    for _ in 0..4 {
        p = put_block(&mut w, p, &flat((v - 128) * 8));
    }
    put_block(&mut w, 0, &flat((c - 128) * 8));
    put_block(&mut w, 0, &flat((c - 128) * 8));
    let (_, _, out) = decode(build_jpeg(16, 16, &[0x22, 0x11, 0x11], &w.finish())).unwrap();
    let expected = reference_rgb(v, c, c);
    for y in 0..16 {
        for x in 0..16 {
            assert_eq!(pixel(&out, 16, x, y), expected);
        }
    }
    // The four pixels under chroma sample (0, 0).
    assert_eq!(pixel(&out, 16, 0, 0), pixel(&out, 16, 1, 1));
    assert_eq!(pixel(&out, 16, 0, 1), pixel(&out, 16, 1, 0));
}

#[test]
fn subsampling_420_luma_blocks_tile_the_mcu() {
    let luma = [40, 80, 120, 160];
    let mut w = BitWriter::new();
    let mut p = 0;
    for v in luma {
        p = put_block(&mut w, p, &flat((v - 128) * 8));
    }
    put_block(&mut w, 0, &flat(0));
    put_block(&mut w, 0, &flat(0));
    let (_, _, out) = decode(build_jpeg(16, 16, &[0x22, 0x11, 0x11], &w.finish())).unwrap();
    for y in 0..16 {
        for x in 0..16 {
            let v = luma[(y / 8) * 2 + x / 8] as u8;
            assert_eq!(pixel(&out, 16, x, y), (v, v, v));
        }
    }
}

#[test]
fn stuffed_zero_inside_dc_amplitude() {
    // Category 12 (code 1100) and the amplitude 111111111111: the second
    // byte of the stream is 0xFF and gets a stuffed zero.
    let mut w = BitWriter::new();
    put_block(&mut w, 0, &flat(4095));
    let entropy = w.finish();
    assert_eq!(&entropy[0..3], &[0xCF, 0xFF, 0x00]);
    let (_, _, out) = decode(build_jpeg(8, 8, &[0x11], &entropy)).unwrap();
    // 4095 / 8 + 128 is beyond the range of a sample.
    assert!(out.iter().all(|v| *v == 255));

    // The same coefficient from a stream that needs no stuffing: 1016
    // first, then the difference in the next MCU.
    let mut w = BitWriter::new();
    let p = put_block(&mut w, 0, &flat(1016));
    put_block(&mut w, p, &flat(4095));
    let entropy2 = w.finish();
    assert!(!entropy2.windows(2).any(|p| p == [0xFF, 0x00]));
    let (_, _, out2) = decode(build_jpeg(16, 8, &[0x11], &entropy2)).unwrap();
    for y in 0..8 {
        for x in 0..8 {
            assert_eq!(pixel(&out2, 16, x, y), (255, 255, 255));
            assert_eq!(pixel(&out2, 16, x + 8, y), pixel(&out, 8, x, y));
        }
    }
}

#[test]
fn stuffed_zero_does_not_change_later_coefficients() {
    // The second block brings the predictor down again.
    let mut w = BitWriter::new();
    let p = put_block(&mut w, 0, &flat(4095));
    put_block(&mut w, p, &flat(80));
    let entropy = w.finish();
    assert!(entropy.windows(2).any(|p| p == [0xFF, 0x00]));
    let (_, _, out) = decode(build_jpeg(16, 8, &[0x11], &entropy)).unwrap();
    for y in 0..8 {
        assert_eq!(pixel(&out, 16, 3, y), (255, 255, 255));
        assert_eq!(pixel(&out, 16, 11, y), (138, 138, 138));
    }
}

#[test]
fn mcus_land_in_raster_order_with_dc_prediction() {
    // A 24x16 grey image: six MCUs, each flat with its own value.
    let values = [10, 60, 110, 160, 210, 250];
    let mut w = BitWriter::new();
    let mut p = 0;
    for v in values {
        p = put_block(&mut w, p, &flat((v - 128) * 8));
    }
    let (width, height, out) = decode(build_jpeg(24, 16, &[0x11], &w.finish())).unwrap();
    assert_eq!((width, height), (24, 16));
    for y in 0..16 {
        for x in 0..24 {
            let v = values[(y / 8) * 3 + x / 8] as u8;
            assert_eq!(pixel(&out, 24, x, y), (v, v, v));
        }
    }
}

fn reference_idct(coeffs: &[i32; 64]) -> [f64; 64] {
    let mut out = [0f64; 64];
    for y in 0..8 {
        for x in 0..8 {
            let mut s = 0f64;
            for v in 0..8 {
                for u in 0..8 {
                    let cu = if u == 0 { 1.0 / 2f64.sqrt() } else { 1.0 };
                    let cv = if v == 0 { 1.0 / 2f64.sqrt() } else { 1.0 };
                    s += cu
                        * cv
                        * coeffs[v * 8 + u] as f64
                        * (((2 * x + 1) * u) as f64 * std::f64::consts::PI / 16.0).cos()
                        * (((2 * y + 1) * v) as f64 * std::f64::consts::PI / 16.0).cos();
                }
            }
            out[y * 8 + x] = s / 4.0;
        }
    }
    out
}

#[test]
fn block_with_ac_coefficients_matches_reference_transform() {
    let mut coeffs = [0i32; 64];
    coeffs[0] = 120;
    coeffs[1] = -60;
    coeffs[8] = 45;
    coeffs[9] = 30;
    coeffs[2] = -17;
    coeffs[27] = 9;
    coeffs[63] = -5;
    let mut w = BitWriter::new();
    put_block(&mut w, 0, &coeffs);
    let (_, _, out) = decode(build_jpeg(8, 8, &[0x11], &w.finish())).unwrap();
    let reference = reference_idct(&coeffs);
    for i in 0..64 {
        let expected = (reference[i] + 128.0).round().clamp(0.0, 255.0) as i32;
        let got = out[i * 3] as i32;
        assert!((got - expected).abs() <= 1, "sample {}: {} against {}", i, got, expected);
        assert_eq!(out[i * 3], out[i * 3 + 1]);
        assert_eq!(out[i * 3], out[i * 3 + 2]);
    }
}

#[test]
fn quantization_table_scales_coefficients() {
    // The same image once with DC 8 and the identity table, once with DC 1
    // and a table of eights.
    let mut w = BitWriter::new();
    put_block(&mut w, 0, &flat(1));
    let mut bytes = build_jpeg(8, 8, &[0x11], &w.finish());
    // The table entries follow SOI (2 bytes), APP0 (18 bytes) and the
    // five bytes of the marker, the length and the table id.
    for i in 0..64 {
        assert_eq!(bytes[25 + i], 1);
        bytes[25 + i] = 8;
    }
    let (_, _, out) = decode(bytes).unwrap();
    assert!(out.iter().all(|v| *v == 129));
}

#[test]
fn zero_run_symbol_skips_sixteen_positions() {
    // A coefficient at zig-zag position 20 needs one run of sixteen zeros
    // and a run of three.
    let mut coeffs = [0i32; 64];
    coeffs[ZIGZAG_TO_NATURAL[20]] = 64;
    let mut w = BitWriter::new();
    put_block(&mut w, 0, &coeffs);
    let entropy = w.finish();
    // DC category 0, then the symbol 0xF0.
    assert_eq!(entropy[0], 0x0F);
    let (_, _, out) = decode(build_jpeg(8, 8, &[0x11], &entropy)).unwrap();
    let reference = reference_idct(&coeffs);
    for i in 0..64 {
        let expected = (reference[i] + 128.0).round() as i32;
        assert!((out[i * 3] as i32 - expected).abs() <= 1);
    }
}

// ---------------------------------------------------------------------
// Failures
// ---------------------------------------------------------------------

#[test]
fn empty_input_is_truncated() {
    assert_eq!(decode(Vec::new()).unwrap_err(), JpegError::TruncatedInput);
}

#[test]
fn missing_scan_is_truncated() {
    let bytes = vec![0xFF, 0xD8, 0xFF, 0xD9];
    assert_eq!(decode(bytes).unwrap_err(), JpegError::TruncatedInput);
}

#[test]
fn segment_longer_than_file_is_truncated() {
    let bytes = vec![0xFF, 0xD8, 0xFF, 0xE0, 0x00, 0x10, 1, 2, 3];
    assert_eq!(decode(bytes).unwrap_err(), JpegError::TruncatedInput);
}

#[test]
fn bytes_that_are_no_marker_are_a_bad_marker() {
    let bytes = vec![0xFF, 0xD8, 0x12, 0x34, 0x00, 0x02];
    assert_eq!(decode(bytes).unwrap_err(), JpegError::BadMarker);
}

#[test]
fn restart_marker_in_headers_is_a_bad_marker() {
    let bytes = vec![0xFF, 0xD8, 0xFF, 0xD0, 0x00, 0x02];
    assert_eq!(decode(bytes).unwrap_err(), JpegError::BadMarker);
}

#[test]
fn progressive_frame_is_unsupported() {
    let mut bytes = vec![0xFF, 0xD8];
    bytes.extend(segment(0xFFC2, &[8, 0, 8, 0, 8, 1, 1, 0x11, 0]));
    assert_eq!(decode(bytes).unwrap_err(), JpegError::UnsupportedFeature);
}

#[test]
fn restart_interval_is_unsupported() {
    let mut bytes = vec![0xFF, 0xD8];
    bytes.extend(segment(0xFFDD, &[0, 4]));
    assert_eq!(decode(bytes).unwrap_err(), JpegError::UnsupportedFeature);
}

#[test]
fn segment_length_below_two_is_a_logic_error() {
    let bytes = vec![0xFF, 0xD8, 0xFF, 0xE0, 0x00, 0x01, 0, 0];
    assert_eq!(decode(bytes).unwrap_err(), JpegError::LogicError);
}

#[test]
fn sixteen_bit_quantization_table_is_unsupported() {
    let mut bytes = vec![0xFF, 0xD8];
    bytes.extend(segment(0xFFDB, &dqt_payload(0x10, 1)));
    assert_eq!(decode(bytes).unwrap_err(), JpegError::UnsupportedFeature);
}

#[test]
fn unknown_sampling_factors_are_unsupported() {
    let mut w = BitWriter::new();
    put_block(&mut w, 0, &flat(0));
    let bytes = build_jpeg(32, 8, &[0x41, 0x11, 0x11], &w.finish());
    assert_eq!(decode(bytes).unwrap_err(), JpegError::UnsupportedFeature);
}

#[test]
fn size_that_is_no_multiple_of_the_mcu_is_unsupported() {
    let mut w = BitWriter::new();
    put_block(&mut w, 0, &flat(0));
    put_block(&mut w, 0, &flat(0));
    let bytes = build_jpeg(12, 8, &[0x11], &w.finish());
    let mut jpeg = JpegControl::new();
    jpeg.load(bytes);
    assert_eq!(jpeg.parse_markers(), Ok((12, 8, 288)));
    let mut out = vec![0u8; 288];
    assert_eq!(jpeg.decode_image(&mut out), Err(JpegError::UnsupportedFeature));
}

#[test]
fn small_buffer_is_rejected() {
    let mut w = BitWriter::new();
    put_block(&mut w, 0, &flat(0));
    let mut jpeg = JpegControl::new();
    jpeg.load(build_jpeg(8, 8, &[0x11], &w.finish()));
    assert_eq!(jpeg.parse_markers(), Ok((8, 8, 192)));
    let mut out = vec![7u8; 191];
    assert_eq!(jpeg.decode_image(&mut out), Err(JpegError::BufferTooSmall));
    assert!(out.iter().all(|v| *v == 7));
}

#[test]
fn larger_buffer_keeps_its_tail() {
    let mut w = BitWriter::new();
    put_block(&mut w, 0, &flat(0));
    let mut jpeg = JpegControl::new();
    jpeg.load(build_jpeg(8, 8, &[0x11], &w.finish()));
    jpeg.parse_markers().unwrap();
    let mut out = vec![7u8; 200];
    assert_eq!(jpeg.decode_image(&mut out), Ok(()));
    assert_eq!(out.len(), 200);
    assert!(out[..192].iter().all(|v| *v == 128));
    assert!(out[192..].iter().all(|v| *v == 7));
}

#[test]
fn entropy_data_that_ends_early_is_truncated() {
    let mut w = BitWriter::new();
    let p = put_block(&mut w, 0, &flat(0));
    put_block(&mut w, p, &flat(0));
    let mut entropy = w.finish();
    // Two MCUs need 24 bits; leave room for one.
    entropy.truncate(1);
    let bytes = build_jpeg(16, 8, &[0x11], &entropy);
    assert_eq!(decode(bytes).unwrap_err(), JpegError::TruncatedInput);
}

#[test]
fn code_outside_the_table_is_a_bad_symbol() {
    // The AC table has no code 11111111.
    let entropy = vec![0x0F, 0xF0];
    let mut bytes = build_jpeg(8, 8, &[0x11], &entropy);
    let n = bytes.len();
    assert_eq!(bytes[n - 4], 0x0F);
    bytes[n - 4] = 0x0F;
    bytes[n - 3] = 0xF7;
    // 0000 (DC), 1111 1111 (AC code 255), then 0111.
    assert_eq!(decode(bytes).unwrap_err(), JpegError::BadHuffmanSymbol);
}

#[test]
fn run_beyond_the_block_is_a_logic_error() {
    // Four runs of sixteen zeros pass the end of the block.
    let mut w = BitWriter::new();
    w.put(0, 4);
    for _ in 0..4 {
        w.put(0xF0, 8);
    }
    let bytes = build_jpeg(8, 8, &[0x11], &w.finish());
    assert_eq!(decode(bytes).unwrap_err(), JpegError::LogicError);
}

#[test]
fn dc_coefficient_beyond_sixteen_bits_is_a_logic_error() {
    // Three differences of 16383 add up to more than 32767.
    let mut w = BitWriter::new();
    let mut p = 0;
    for _ in 0..3 {
        // Not `put_block`: the differences are written directly.
        w.put(14, 4);
        w.put(16383, 14);
        w.put(0x00, 8);
        p += 16383;
    }
    assert_eq!(p, 49149);
    let bytes = build_jpeg(24, 8, &[0x11], &w.finish());
    assert_eq!(decode(bytes).unwrap_err(), JpegError::LogicError);
}

#[test]
fn dequantized_coefficient_beyond_sixteen_bits_is_a_logic_error() {
    let mut w = BitWriter::new();
    put_block(&mut w, 0, &flat(1000));
    let mut bytes = build_jpeg(8, 8, &[0x11], &w.finish());
    bytes[25] = 200;
    assert_eq!(decode(bytes).unwrap_err(), JpegError::LogicError);
}

#[test]
fn component_id_out_of_range_is_a_logic_error() {
    let mut bytes = vec![0xFF, 0xD8];
    bytes.extend(segment(0xFFC0, &[8, 0, 8, 0, 8, 1, 4, 0x11, 0]));
    assert_eq!(decode(bytes).unwrap_err(), JpegError::LogicError);
}

#[test]
fn error_messages_differ() {
    let all = [
        JpegError::TruncatedInput,
        JpegError::BadMarker,
        JpegError::UnsupportedFeature,
        JpegError::BadHuffmanSymbol,
        JpegError::BufferTooSmall,
        JpegError::LogicError,
    ];
    for (i, a) in all.iter().enumerate() {
        assert!(!a.message().is_empty());
        for b in &all[i + 1..] {
            assert_ne!(a.message(), b.message());
        }
    }
}

struct Lcg(u64);

impl Lcg {
    fn next(&mut self) -> u32 {
        self.0 = self.0.wrapping_mul(6364136223846793005).wrapping_add(1442695040888963407);
        (self.0 >> 33) as u32
    }
}

#[test]
fn random_blocks_round_trip_within_one() {
    let mut rng = Lcg(2024);
    let columns = 5;
    let rows = 3;
    let mut blocks = Vec::new();
    let mut w = BitWriter::new();
    let mut pred = 0;
    for _ in 0..columns * rows {
        let mut coeffs = [0i32; 64];
        coeffs[0] = (rng.next() % 1201) as i32 - 600;
        let filled = rng.next() as usize % 20;
        for _ in 0..filled {
            let i = 1 + rng.next() as usize % 63;
            coeffs[i] = (rng.next() % 121) as i32 - 60;
        }
        pred = put_block(&mut w, pred, &coeffs);
        blocks.push(coeffs);
    }
    let width = columns * 8;
    let (_, _, out) = decode(build_jpeg(width as u16, (rows * 8) as u16, &[0x11], &w.finish())).unwrap();
    for (j, coeffs) in blocks.iter().enumerate() {
        let reference = reference_idct(coeffs);
        let x0 = (j % columns) * 8;
        let y0 = (j / columns) * 8;
        for i in 0..64 {
            let exact = reference[i] + 128.0;
            let expected = exact.round().clamp(0.0, 255.0);
            let (r, g, b) = pixel(&out, width, x0 + i % 8, y0 + i / 8);
            assert_eq!((r, r), (g, b));
            assert!((r as f64 - expected).abs() <= 1.0);
            if (exact - exact.floor() - 0.5).abs() > 0.01 {
                assert_eq!(r as f64, expected);
            }
        }
    }
}

#[test]
fn each_component_uses_the_tables_it_selects() {
    // Two quantization tables in one segment, four Huffman tables in one
    // segment; the chroma components use the tables with id 1.
    let mut f = vec![0xFF, 0xD8];
    let mut dqt = dqt_payload(0, 1);
    dqt.extend(dqt_payload(1, 2));
    f.extend(segment(0xFFDB, &dqt));
    f.extend(segment(0xFFFE, b"comment"));
    f.extend(segment(0xFFC0, &[8, 0, 8, 0, 8, 3, 1, 0x11, 0, 2, 0x11, 1, 3, 0x11, 1]));
    // DC table 1: two codes of one bit, the categories 0 and 9.
    let mut dc1 = vec![0x01u8];
    let mut counts = [0u8; 16];
    counts[0] = 2;
    dc1.extend_from_slice(&counts);
    dc1.extend_from_slice(&[0, 9]);
    // AC table 1: one code of one bit, the end of the block.
    let mut ac1 = vec![0x11u8];
    let mut counts = [0u8; 16];
    counts[0] = 1;
    ac1.extend_from_slice(&counts);
    ac1.push(0x00);
    let mut dht = dc_table_payload(0);
    dht.extend(ac_table_payload(0));
    dht.extend(dc1);
    dht.extend(ac1);
    f.extend(segment(0xFFC4, &dht));
    f.extend(segment(0xFFDA, &[3, 1, 0x00, 2, 0x11, 3, 0x11, 0, 63, 0]));
    let mut w = BitWriter::new();
    // Luma 96 with the tables 0.
    put_block(&mut w, 0, &flat((96 - 128) * 8));
    // Cb: category 9 (code 1), amplitude 508, end of block (code 0); the
    // table of twos doubles it: 1016 / 8 + 128 = 255.
    w.put(1, 1);
    w.put(508, 9);
    w.put(0, 1);
    // Cr: difference 0 (code 0), end of block (code 0).
    w.put(0, 1);
    w.put(0, 1);
    f.extend(w.finish());
    f.extend_from_slice(&[0xFF, 0xD9]);
    let (_, _, out) = decode(f).unwrap();
    let expected = reference_rgb(96, 255, 128);
    for y in 0..8 {
        for x in 0..8 {
            assert_eq!(pixel(&out, 8, x, y), expected);
        }
    }
}

#[test]
fn headers_can_be_parsed_again_after_a_new_load() {
    let mut w = BitWriter::new();
    put_block(&mut w, 0, &flat(8));
    let first = build_jpeg(8, 8, &[0x11], &w.finish());
    let mut w = BitWriter::new();
    let p = put_block(&mut w, 0, &flat(16));
    put_block(&mut w, p, &flat(-16));
    let second = build_jpeg(8, 16, &[0x11], &w.finish());

    let mut jpeg = JpegControl::new();
    assert_eq!(jpeg.get_dimension(), (0, 0));
    assert_eq!(jpeg.get_total_buffer_size(), 0);
    jpeg.load(first);
    assert_eq!(jpeg.parse_markers(), Ok((8, 8, 192)));
    let mut out = vec![0u8; 192];
    assert_eq!(jpeg.decode_image(&mut out), Ok(()));
    assert!(out.iter().all(|v| *v == 129));
    // Decoding twice gives the same image.
    let mut again = vec![0u8; 192];
    assert_eq!(jpeg.decode_image(&mut again), Ok(()));
    assert_eq!(out, again);

    jpeg.load(second);
    assert_eq!(jpeg.parse_markers(), Ok((8, 16, 384)));
    let mut out = vec![0u8; 384];
    assert_eq!(jpeg.decode_image(&mut out), Ok(()));
    assert!(out[..192].iter().all(|v| *v == 130));
    assert!(out[192..].iter().all(|v| *v == 126));
}

#[test]
fn decoder_without_file_has_no_image() {
    let mut jpeg = JpegControl::new();
    assert_eq!(jpeg.parse_markers(), Err(JpegError::TruncatedInput));
    let mut out: Vec<u8> = Vec::new();
    assert_eq!(jpeg.decode_image(&mut out), Err(JpegError::UnsupportedFeature));
}
