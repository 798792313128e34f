//! The operators of the network as parts of programs for the graphics device.
//!
//! Each operator adds to a program the steps that compute its result, and gives a handle to
//! the value of the last one.
pub mod attention;
pub mod conv;
pub mod elementwise;
pub mod forward;
pub mod layers;
pub mod layout;
pub mod matmul;
pub mod transformer;

pub use attention::cross_attn_layer;
pub use attention::mha;
pub use attention::self_attn_layer;
pub use conv::conv1d_1x1;
pub use conv::conv1d_k1;
pub use conv::conv1d_k3_dilation;
pub use conv::conv1d_k8_s4p2;
pub use conv::conv2d_1x1;
pub use conv::conv2d_3x3_s1p1;
pub use conv::conv2d_8x1_s4p2;
pub use conv::conv_transpose1d_8_s4p2;
pub use conv::conv_transpose2d_8x1_s4p2;
pub use elementwise::add_freq_emb_inplace;
pub use elementwise::add_inplace;
pub use elementwise::add_to;
pub use elementwise::denorm_freq_inplace;
pub use elementwise::gelu_inplace;
pub use elementwise::glu_channel;
pub use elementwise::groupnorm1_inplace;
pub use elementwise::layer_norm;
pub use elementwise::layer_scale_inplace;
pub use elementwise::layer_scale_last_inplace;
pub use elementwise::norm_freq_inplace;
pub use elementwise::softmax_scaled;
pub use forward::htdemucs_forward;
pub use layers::dconv;
pub use layers::dconv_layer;
pub use layers::hdec_layer;
pub use layers::henc_layer;
pub use layers::tdec_layer;
pub use layers::tenc_layer;
pub use layout::copy_per_head;
pub use layout::flatten_bcft_to_btfc;
pub use layout::permute_bcft_to_btcf;
pub use layout::permute_bhsd_to_bhds;
pub use layout::permute_bhsd_to_bsd;
pub use layout::permute_bsd_to_bhsd;
pub use layout::reshape_bcft_to_bfct;
pub use layout::reshape_bfct_to_bcft;
pub use layout::scatter_per_head;
pub use layout::swap_dims_12_3d;
pub use layout::transpose_bchw_to_bhwc;
pub use layout::transpose_bhwc_to_bchw;
pub use layout::trim_h2;
pub use layout::trim_l;
pub use layout::unflatten_btfc_to_bcft;
pub use matmul::linear_with_bias;
pub use transformer::channel_resample_3d;
pub use transformer::channel_resample_4d;
pub use transformer::cross_domain_transformer;
