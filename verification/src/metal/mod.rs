//! Metal code generation: streamed region kernels and K-quant matmuls.

pub mod calls;
pub mod kquant;
pub mod laws;
pub mod streamed;
pub mod wide;
