//! Blind image watermarking: the integer and index logic of a DWT–DCT–SVD
//! watermarking pipeline, verified.
//!
//! The library holds the configuration, the seeded assignment of watermark bits
//! to image blocks, the majority vote that decodes them, the geometry of the
//! channel planes (padding, cropping, cutting into tiles and writing them back),
//! and the packing of bytes into bits. The planes are generic over their cell
//! type, so the same verified geometry carries any sample type.
pub mod bits;
pub mod blocks;
pub mod config;
pub mod embed;
pub mod pipeline;
pub mod plane;
pub mod quantization;
pub mod strategy;
