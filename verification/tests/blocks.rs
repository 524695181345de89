use jpeg_decoder::jpeg_constants::JPEG_REV_ZIGZAG_TABLE;
use jpeg_decoder::jpeg_error::JpegError;
use jpeg_decoder::jpeg_frame_info::JpegFrameHeaderInfo;
use jpeg_decoder::jpeg_huffman_table::JpegDhtManager;
use jpeg_decoder::jpeg_idct::JpegIdctManager;
use jpeg_decoder::jpeg_idct::JPEG_IDCT_KERNEL;
use jpeg_decoder::jpeg_outbuffer_info::JpegOutBufferInfo;
use jpeg_decoder::jpeg_quantization_table::JpegDqtManager;
use jpeg_decoder::jpeg_raw_data::JpegBitStreamReader;
use jpeg_decoder::jpeg_raw_data::JpegRawData;
use jpeg_decoder::jpeg_raw_data::JpegReader;
use jpeg_decoder::jpeg_sample_block::JpegMinimumCodedUnit;
use jpeg_decoder::jpeg_sample_block::JpegSampleBlock;
use jpeg_decoder::jpeg_sampler::JpegSampleMode;

fn raw(bytes: &[u8]) -> JpegRawData {
    let mut r = JpegRawData::new();
    r.load(bytes.to_vec());
    r
}

fn samples(b: &JpegSampleBlock) -> Vec<i16> {
    (0..64).map(|i| b.get_sample(i)).collect()
}

#[test]
fn new_block_is_zero() {
    let b = JpegSampleBlock::new();
    assert!(samples(&b).iter().all(|v| *v == 0));
    assert!(!b.is_completed());
    assert_eq!(b.iter().count(), 64);
}

#[test]
fn block_iterates_in_natural_order() {
    let mut values = [0i16; 64];
    for i in 0..64 {
        values[i] = i as i16 * 3 - 50;
    }
    let b = JpegSampleBlock::from_samples(values);
    assert!(b.is_completed());
    let seen: Vec<i16> = b.iter().copied().collect();
    assert_eq!(seen, values.to_vec());
    assert_eq!(samples(&b), values.to_vec());
}

#[test]
fn coefficients_go_to_zigzag_positions() {
    let mut b = JpegSampleBlock::from_samples([99; 64]);
    b.reset_index();
    assert_eq!(b.get_zigzag_index(), 0);
    b.reset_index();
    // DC, then two zeros and a 5, then one zero and a -3.
    assert_eq!(b.add_coefficients(40, 0), Ok(false));
    assert_eq!(b.add_coefficients(5, 2), Ok(false));
    assert_eq!(b.add_coefficients(-3, 1), Ok(false));
    let s = samples(&b);
    let expected = [40, 0, 0, 5, 0, -3];
    for z in 0..64 {
        let k = JPEG_REV_ZIGZAG_TABLE[z] as usize;
        if z < expected.len() {
            assert_eq!(s[k], expected[z]);
        } else {
            // What was not reached yet is as it was.
            assert_eq!(s[k], 99);
        }
    }
    b.end_coefficients();
    assert!(b.is_completed());
    let s = samples(&b);
    for z in 0..64 {
        let k = JPEG_REV_ZIGZAG_TABLE[z] as usize;
        assert_eq!(s[k], if z < expected.len() { expected[z] } else { 0 });
    }
}

#[test]
fn block_is_full_at_position_63() {
    let mut b = JpegSampleBlock::new();
    assert_eq!(b.add_coefficients(1, 62), Ok(false));
    assert_eq!(b.add_coefficients(2, 0), Ok(true));
    assert!(b.is_completed());
    assert_eq!(b.get_sample(62), 1);
    assert_eq!(b.get_sample(63), 2);
    let mut b = JpegSampleBlock::new();
    assert_eq!(b.add_coefficients(7, 63), Ok(true));
    assert_eq!(b.get_sample(63), 7);
}

#[test]
fn run_that_does_not_fit_is_rejected() {
    let mut b = JpegSampleBlock::new();
    assert_eq!(b.add_coefficients(1, 64), Err(JpegError::LogicError));
    assert_eq!(b.add_coefficients(1, usize::MAX), Err(JpegError::LogicError));
    assert_eq!(b.add_coefficients(1, 60), Ok(false));
    let before = samples(&b);
    assert_eq!(b.add_coefficients(9, 3), Err(JpegError::LogicError));
    assert_eq!(samples(&b), before);
    assert_eq!(b.add_coefficients(9, 2), Ok(true));
    assert_eq!(b.add_coefficients(9, 0), Err(JpegError::LogicError));
}

#[test]
fn dequantization_multiplies_elementwise() {
    let mut values = [0i16; 64];
    let mut scale = [0u16; 64];
    for i in 0..64 {
        values[i] = i as i16 - 32;
        scale[i] = (i as u16 % 7) + 1;
    }
    let mut b = JpegSampleBlock::from_samples(values);
    assert_eq!(b.scale_coefficients(&scale), Ok(()));
    for i in 0..64 {
        assert_eq!(b.get_sample(i) as i32, values[i] as i32 * scale[i] as i32);
    }
    assert!(b.is_completed());
}

#[test]
fn dequantization_that_overflows_is_rejected() {
    let mut values = [1i16; 64];
    values[40] = 300;
    let mut scale = [1u16; 64];
    scale[40] = 110;
    let mut b = JpegSampleBlock::from_samples(values);
    assert_eq!(b.scale_coefficients(&scale), Err(JpegError::LogicError));
    assert_eq!(samples(&b), values.to_vec());
    scale[40] = 109;
    assert_eq!(b.scale_coefficients(&scale), Ok(()));
    assert_eq!(b.get_sample(40), 32700);
    let mut b = JpegSampleBlock::from_samples([-2; 64]);
    assert_eq!(b.scale_coefficients(&[16384; 64]), Ok(()));
    assert_eq!(b.get_sample(5), -32768);
    let mut b = JpegSampleBlock::from_samples([2; 64]);
    assert_eq!(b.scale_coefficients(&[16384; 64]), Err(JpegError::LogicError));
}

fn reference_idct(coeffs: &[i16; 64]) -> [f64; 64] {
    let mut out = [0f64; 64];
    for y in 0..8 {
        for x in 0..8 {
            let mut s = 0f64;
            for v in 0..8 {
                for u in 0..8 {
                    let cu = if u == 0 { 1.0 / 2f64.sqrt() } else { 1.0 };
                    let cv = if v == 0 { 1.0 / 2f64.sqrt() } else { 1.0 };
                    s += cu
                        * cv
                        * coeffs[v * 8 + u] as f64
                        * (((2 * x + 1) * u) as f64 * std::f64::consts::PI / 16.0).cos()
                        * (((2 * y + 1) * v) as f64 * std::f64::consts::PI / 16.0).cos();
                }
            }
            out[y * 8 + x] = s / 4.0;
        }
    }
    out
}

fn reference_dct(samples: &[f64; 64]) -> [f64; 64] {
    let mut out = [0f64; 64];
    for v in 0..8 {
        for u in 0..8 {
            let cu = if u == 0 { 1.0 / 2f64.sqrt() } else { 1.0 };
            let cv = if v == 0 { 1.0 / 2f64.sqrt() } else { 1.0 };
            let mut s = 0f64;
            for y in 0..8 {
                for x in 0..8 {
                    s += samples[y * 8 + x]
                        * (((2 * x + 1) * u) as f64 * std::f64::consts::PI / 16.0).cos()
                        * (((2 * y + 1) * v) as f64 * std::f64::consts::PI / 16.0).cos();
                }
            }
            out[v * 8 + u] = cu * cv * s / 4.0;
        }
    }
    out
}

struct Lcg(u64);

impl Lcg {
    fn next(&mut self) -> u32 {
        self.0 = self.0.wrapping_mul(6364136223846793005).wrapping_add(1442695040888963407);
        (self.0 >> 33) as u32
    }
}

#[test]
fn kernel_is_the_scaled_cosine_table() {
    for x in 0..8 {
        for u in 0..8 {
            let c = if u == 0 { 1.0 / 2f64.sqrt() } else { 1.0 };
            let exact = 1048576.0
                * c
                / 2.0
                * (((2 * x + 1) * u) as f64 * std::f64::consts::PI / 16.0).cos();
            assert_eq!(JPEG_IDCT_KERNEL[x * 8 + u] as f64, exact.round());
        }
    }
}

#[test]
fn idct_of_dc_only_blocks_is_flat() {
    let mut tm = JpegIdctManager::new();
    for (dc, expected) in [
        (0, 128),
        (8, 129),
        (-8, 127),
        (1016, 255),
        (-1024, 0),
        (5, 129),
        (3, 128),
        (-3, 128),
        (-5, 127),
        (2000, 255),
        (-2000, 0),
    ] {
        let mut block = [0i16; 64];
        block[0] = dc;
        tm.idct(&mut block);
        assert!(block.iter().all(|v| *v == expected), "dc {}", dc);
    }
}

#[test]
fn idct_matches_the_reference_on_random_blocks() {
    let mut rng = Lcg(12345);
    let mut tm = JpegIdctManager::new();
    for round in 0..200 {
        let mut coeffs = [0i16; 64];
        let spread = [4, 30, 200, 1000][round % 4];
        let filled = 1 + (rng.next() as usize % 64);
        for _ in 0..filled {
            let i = rng.next() as usize % 64;
            coeffs[i] = (rng.next() % (2 * spread + 1)) as i16 - spread as i16;
        }
        let reference = reference_idct(&coeffs);
        let mut block = coeffs;
        tm.idct(&mut block);
        for i in 0..64 {
            let exact = reference[i] + 128.0;
            let expected = exact.round().clamp(0.0, 255.0);
            assert!(block[i] >= 0 && block[i] <= 255);
            assert!(
                (block[i] as f64 - expected).abs() <= 1.0,
                "round {} sample {}: {} against {}",
                round,
                i,
                block[i],
                exact
            );
            // Away from a half the two agree exactly.
            if (exact - exact.floor() - 0.5).abs() > 0.01 {
                assert_eq!(block[i] as f64, expected);
            }
        }
    }
}

#[test]
fn idct_inverts_the_forward_transform() {
    let mut rng = Lcg(777);
    let mut tm = JpegIdctManager::new();
    for _ in 0..100 {
        // Integer coefficients whose samples fit in 0..=255.
        let mut coeffs = [0i16; 64];
        for i in 0..64 {
            coeffs[i] = (rng.next() % 21) as i16 - 10;
        }
        let spatial = reference_idct(&coeffs);
        if spatial.iter().any(|s| *s + 128.0 < 0.0 || *s + 128.0 > 255.0) {
            continue;
        }
        let forward = reference_dct(&spatial);
        let mut block = [0i16; 64];
        for i in 0..64 {
            block[i] = forward[i].round() as i16;
        }
        assert_eq!(block, coeffs);
        tm.idct(&mut block);
        for i in 0..64 {
            assert!((block[i] as f64 - (spatial[i] + 128.0)).abs() <= 1.0);
        }
    }
}

#[test]
fn idct_of_extreme_coefficients_stays_in_range() {
    let mut tm = JpegIdctManager::new();
    for value in [i16::MAX, i16::MIN] {
        let mut block = [value; 64];
        tm.idct(&mut block);
        assert!(block.iter().all(|v| *v >= 0 && *v <= 255));
    }
}

#[test]
fn block_transform_is_the_idct() {
    let mut values = [0i16; 64];
    values[0] = 80;
    values[1] = 50;
    values[9] = -20;
    let mut b = JpegSampleBlock::from_samples(values);
    b.transform();
    let mut expected = values;
    JpegIdctManager::new().idct(&mut expected);
    assert_eq!(samples(&b), expected.to_vec());
}

// ---------------------------------------------------------------------
// The minimum coded unit
// ---------------------------------------------------------------------

fn frame_header(sampling: &[u8]) -> JpegFrameHeaderInfo {
    let mut bytes = vec![8u8, 0, 16, 0, 16, sampling.len() as u8];
    for (i, s) in sampling.iter().enumerate() {
        bytes.extend_from_slice(&[i as u8 + 1, *s, i as u8]);
    }
    let r = raw(&bytes);
    let mut reader = JpegReader::new(&r);
    let mut fh = JpegFrameHeaderInfo::new();
    assert_eq!(fh.parse_segment(&mut reader), Ok(()));
    fh
}

#[test]
fn mcu_modes() {
    let cases: [(&[u8], JpegSampleMode, usize, usize, usize); 5] = [
        (&[0x11], JpegSampleMode::JpegSampleModeNone, 8, 8, 1),
        (&[0x11, 0x11, 0x11], JpegSampleMode::JpegSampleMode444, 8, 8, 3),
        (&[0x21, 0x11, 0x11], JpegSampleMode::JpegSampleMode422, 16, 8, 4),
        (&[0x12, 0x11, 0x11], JpegSampleMode::JpegSampleMode440, 8, 16, 4),
        (&[0x22, 0x11, 0x11], JpegSampleMode::JpegSampleMode420, 16, 16, 6),
    ];
    for (sampling, mode, w, h, n) in cases {
        let mut mcu = JpegMinimumCodedUnit::new();
        assert_eq!(mcu.set_mode(&frame_header(sampling)), Ok(()));
        assert_eq!(mcu.get_sampling_mode(), mode);
        assert_eq!(mcu.get_width(), w);
        assert_eq!(mcu.get_height(), h);
        assert_eq!(mode.get_mcu_width(), w);
        assert_eq!(mode.get_mcu_height(), h);
        assert_eq!(mode.get_num_blocks(), n);
        assert!(mcu.get_block(n - 1).is_some());
        assert!(mcu.get_block(n).is_none());
    }
}

#[test]
fn mcu_rejects_other_sampling() {
    let bad: [&[u8]; 6] = [
        &[0x22],
        &[0x11, 0x21, 0x11],
        &[0x11, 0x11, 0x12],
        &[0x41, 0x11, 0x11],
        &[0x14, 0x11, 0x11],
        &[0x44, 0x11, 0x11],
    ];
    for sampling in bad {
        let mut mcu = JpegMinimumCodedUnit::new();
        assert_eq!(mcu.set_mode(&frame_header(sampling)), Err(JpegError::UnsupportedFeature));
        assert_eq!(mcu.get_sampling_mode(), JpegSampleMode::JpegSampleModeNone);
    }
    let mut mcu = JpegMinimumCodedUnit::new();
    assert_eq!(mcu.set_mode(&JpegFrameHeaderInfo::new()), Err(JpegError::UnsupportedFeature));
}

fn tables() -> JpegDhtManager {
    // DC: sixteen codes of four bits. AC: four codes of two bits: end of
    // block, (0, 1), (1, 2), sixteen zeros.
    let mut bytes = vec![0x00u8];
    let mut counts = [0u8; 16];
    counts[3] = 16;
    bytes.extend_from_slice(&counts);
    bytes.extend(0..16u8);
    bytes.push(0x10);
    let mut counts = [0u8; 16];
    counts[1] = 4;
    bytes.extend_from_slice(&counts);
    bytes.extend_from_slice(&[0x00, 0x01, 0x12, 0xF0]);
    let r = raw(&bytes);
    let mut reader = JpegReader::new(&r);
    let mut m = JpegDhtManager::new();
    assert_eq!(m.parse_segment(&mut reader), Ok(()));
    assert_eq!(m.parse_segment(&mut reader), Ok(()));
    m
}

#[test]
fn dc_predictor_is_the_sum_of_the_differences() {
    let dht = tables();
    let mut mcu = JpegMinimumCodedUnit::new();
    assert_eq!(mcu.set_mode(&frame_header(&[0x11])), Ok(()));
    // Differences 5, -3, 0, 7, each followed by the end of the block:
    // 0011 101 00 | 0010 00 00 | 0000 00 | 0011 111 00
    let stream = raw(&[0b0011_1010, 0b0001_0000, 0b0000_0000, 0b0111_1100]);
    let mut b = JpegBitStreamReader::new(&stream);
    let mut sum = 0;
    for diff in [5, -3, 0, 7] {
        assert_eq!(mcu.fill_coefficients(&dht, &mut b), Ok(()));
        sum += diff;
        assert_eq!(mcu.get_last_dc(0), Some(sum));
        assert_eq!(mcu.get_last_dc(1), Some(0));
        let block = mcu.get_block(0).unwrap();
        assert_eq!(block.get_sample(0), sum);
        assert!((1..64).all(|i| block.get_sample(i) == 0));
    }
    assert_eq!(mcu.get_last_dc(3), None);
    // Laying the MCU out again leaves the predictors and the blocks.
    assert_eq!(mcu.set_mode(&frame_header(&[0x11])), Ok(()));
    assert_eq!(mcu.get_last_dc(0), Some(9));
    assert_eq!(mcu.get_block(0).unwrap().get_sample(0), 9);
    assert_eq!(mcu.set_mode(&frame_header(&[0x22, 0x11, 0x11])), Ok(()));
    assert_eq!(mcu.get_last_dc(0), Some(9));
    assert_eq!(mcu.get_block(0).unwrap().get_sample(0), 9);
    assert_eq!(mcu.set_mode(&frame_header(&[0x41, 0x11, 0x11])), Err(JpegError::UnsupportedFeature));
    assert_eq!(mcu.get_last_dc(0), Some(9));
    assert_eq!(mcu.get_sampling_mode(), JpegSampleMode::JpegSampleMode420);
    // A new scan starts with the predictors at zero.
    mcu.reset_predictors();
    assert_eq!(mcu.get_last_dc(0), Some(0));
    assert_eq!(mcu.get_last_dc(1), Some(0));
    assert_eq!(mcu.get_last_dc(2), Some(0));
    assert_eq!(mcu.get_sampling_mode(), JpegSampleMode::JpegSampleMode420);
    assert_eq!(mcu.get_block(0).unwrap().get_sample(0), 9);
}

#[test]
fn new_mcu_has_one_empty_block() {
    let mcu = JpegMinimumCodedUnit::new();
    assert_eq!(mcu.get_sampling_mode(), JpegSampleMode::JpegSampleModeNone);
    let block = mcu.get_block(0).unwrap();
    assert!(!block.is_completed());
    assert!((0..64).all(|i| block.get_sample(i) == 0));
    assert!(mcu.get_block(1).is_none());
    for c in 0..3 {
        assert_eq!(mcu.get_last_dc(c), Some(0));
    }
}

#[test]
fn filled_blocks_are_complete() {
    let dht = tables();
    let mut fh = frame_header(&[0x21, 0x11, 0x11]);
    let scan = raw(&[3, 1, 0x00, 2, 0x00, 3, 0x00, 0, 63, 0]);
    let mut reader = JpegReader::new(&scan);
    assert_eq!(fh.parse_scan_segment(&mut reader), Ok(()));
    let mut mcu = JpegMinimumCodedUnit::new();
    assert_eq!(mcu.set_mode(&fh), Ok(()));
    for k in 0..4 {
        assert!(!mcu.get_block(k).unwrap().is_completed());
    }
    let stream = raw(&[0b0010_1000, 0b0001_1000, 0b0010_0000, 0b1011_0011]);
    let mut b = JpegBitStreamReader::new(&stream);
    assert_eq!(mcu.fill_coefficients(&dht, &mut b), Ok(()));
    for k in 0..4 {
        assert!(mcu.get_block(k).unwrap().is_completed());
    }
    assert!(mcu.get_block(4).is_none());
    // The transform leaves the cursors.
    mcu.transform();
    for k in 0..4 {
        assert!(mcu.get_block(k).unwrap().is_completed());
    }
}

#[test]
fn each_component_has_its_own_predictor() {
    let dht = tables();
    let mut fh = frame_header(&[0x21, 0x11, 0x11]);
    let scan = raw(&[3, 1, 0x00, 2, 0x00, 3, 0x00, 0, 63, 0]);
    let mut reader = JpegReader::new(&scan);
    assert_eq!(fh.parse_scan_segment(&mut reader), Ok(()));
    let mut mcu = JpegMinimumCodedUnit::new();
    assert_eq!(mcu.set_mode(&fh), Ok(()));
    // Y0: 2, Y1: +1, Cb: -1, Cr: 3.
    // 0010 10 00 | 0001 1 00 | 0001 0 00 | 0010 11 00
    let stream = raw(&[0b0010_1000, 0b0001_1000, 0b0010_0000, 0b1011_0011]);
    let mut b = JpegBitStreamReader::new(&stream);
    assert_eq!(mcu.fill_coefficients(&dht, &mut b), Ok(()));
    assert_eq!(mcu.get_block(0).unwrap().get_sample(0), 2);
    assert_eq!(mcu.get_block(1).unwrap().get_sample(0), 3);
    assert_eq!(mcu.get_block(2).unwrap().get_sample(0), -1);
    assert_eq!(mcu.get_block(3).unwrap().get_sample(0), 3);
    assert_eq!(mcu.get_last_dc(0), Some(3));
    assert_eq!(mcu.get_last_dc(1), Some(-1));
    assert_eq!(mcu.get_last_dc(2), Some(3));
}

#[test]
fn stale_coefficients_are_replaced() {
    let dht = tables();
    let mut mcu = JpegMinimumCodedUnit::new();
    assert_eq!(mcu.set_mode(&frame_header(&[0x11])), Ok(()));
    // First MCU: DC 1, AC 1 at position 1, (1, 2) = 3 at position 3, end.
    // 0001 1 | 01 1 | 10 11 | 00
    // Second MCU: DC difference 0, end: 0000 00.
    let stream = raw(&[0b0001_1011, 0b1011_0000, 0b0000_0000]);
    let mut b = JpegBitStreamReader::new(&stream);
    assert_eq!(mcu.fill_coefficients(&dht, &mut b), Ok(()));
    let first = mcu.get_block(0).unwrap();
    assert_eq!(first.get_sample(0), 1);
    assert_eq!(first.get_sample(1), 1);
    assert_eq!(first.get_sample(8), 0);
    assert_eq!(first.get_sample(16), 3);
    assert_eq!(mcu.fill_coefficients(&dht, &mut b), Ok(()));
    let second = mcu.get_block(0).unwrap();
    assert_eq!(second.get_sample(0), 1);
    assert!((1..64).all(|i| second.get_sample(i) == 0));
}

#[test]
fn mcu_pipeline_by_hand() {
    let dht = tables();
    let mut q = vec![0x00u8];
    q.extend([2u8; 64]);
    let qr = raw(&q);
    let mut reader = JpegReader::new(&qr);
    let mut dqt = JpegDqtManager::new();
    assert_eq!(dqt.read_table(&mut reader), Ok(()));

    let mut mcu = JpegMinimumCodedUnit::new();
    assert_eq!(mcu.set_mode(&frame_header(&[0x11])), Ok(()));
    // DC 4 (0011 100), end of block.
    let stream = raw(&[0b0011_1000, 0]);
    let mut b = JpegBitStreamReader::new(&stream);
    assert_eq!(mcu.fill_coefficients(&dht, &mut b), Ok(()));
    assert_eq!(mcu.dequantize(&dqt), Ok(()));
    assert_eq!(mcu.get_block(0).unwrap().get_sample(0), 8);
    mcu.transform();
    assert!((0..64).all(|i| mcu.get_block(0).unwrap().get_sample(i) == 129));

    let mut info = JpegOutBufferInfo::new();
    info.set_parameters(8, 8, 3);
    let mut out = vec![0u8; 8 * 8 * 3];
    assert_eq!(mcu.upsampling(&mut out, &info, 0), Ok(()));
    assert!(out.iter().all(|v| *v == 129));
    let mut small = vec![0u8; 8 * 8 * 3 - 1];
    assert_eq!(mcu.upsampling(&mut small, &info, 0), Err(JpegError::BufferTooSmall));
    assert_eq!(mcu.upsampling(&mut out, &info, 1), Err(JpegError::BufferTooSmall));
}
