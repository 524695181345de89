//! A verified decoder for baseline JPEG images (sequential DCT, 8-bit
//! samples, Huffman coding) that produces an interleaved RGB raster.
//!
//! The pipeline, leaves first: the entropy bit reader, the Huffman tables,
//! the quantization tables, the sample blocks and the minimum coded unit,
//! the inverse DCT, the colour conversion, the sampler and the decoder
//! driver.

pub mod jpeg_constants;
pub mod jpeg_error;
pub mod jpeg_raw_data;
pub mod jpeg_huffman_table;
pub mod jpeg_outbuffer_info;
pub mod jpeg_color_converter;
pub mod jpeg_quantization_table;
pub mod jpeg_frame_info;
pub mod jpeg_idct;
pub mod jpeg_sample_block;
pub mod jpeg_sampler;
pub mod jpeg_control;
