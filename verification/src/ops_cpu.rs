//! The operators of the network.
//!
//! Tensors are flat buffers with their shape beside them: `[B, C, H, W]` or `[B, C, L]`,
//! row-major.
pub mod adjoint;
pub mod attention;
pub mod attention_laws;
pub mod check;
pub mod conv;
pub mod conv_laws;
pub mod dconv;
pub mod decoder;
pub mod decoder_laws;
pub mod elementwise;
pub mod embedding;
pub mod embedding_laws;
pub mod encoder;
pub mod extents;
pub mod forward;
pub mod laws;
pub mod layer_laws;
pub mod layout;
pub mod network_laws;
pub mod norm;
pub mod operator_laws;
pub mod softmax;
pub mod stems;
pub mod standardize;
pub mod transformer;
pub mod transformer_laws;

pub use attention::cross_attn_layer_forward;
pub use attention::linear;
pub use attention::mha;
pub use attention::mha_self;
pub use attention::self_attn_layer_forward;
pub use conv::conv1d;
pub use conv::conv1d_k1;
pub use conv::conv1d_with_stride;
pub use conv::conv2d;
pub use conv::conv_transpose1d;
pub use conv::conv_transpose2d;
pub use dconv::dconv_forward;
pub use dconv::dconv_layer_forward;
pub use decoder::hdec_layer_forward;
pub use decoder::tdec_layer_forward;
pub use elementwise::gelu;
pub use elementwise::glu_channel;
pub use elementwise::layer_scale;
pub use elementwise::layer_scale_last;
pub use embedding::sin_embed_1d;
pub use embedding::sin_embed_2d;
pub use encoder::freq_encoder_forward;
pub use encoder::henc_layer_forward;
pub use encoder::tenc_layer_forward;
pub use forward::htdemucs_forward;
pub use norm::groupnorm1;
pub use norm::layernorm;
pub use softmax::softmax;
pub use standardize::denormalize_freq;
pub use standardize::denormalize_time;
pub use standardize::normalize_freq;
pub use standardize::normalize_time;
pub use stems::extract_stems;
pub use transformer::cross_domain_transformer_forward;
pub use transformer::cross_domain_transformer_forward_traced;
