//! What the network does to lengths.
//!
//! With the kernels that it is made of, a layer of an encoder divides the length of its branch
//! by four, a layer of a decoder multiplies it by four and cuts it down to what entered the
//! encoder layer that it mirrors, and nothing else changes it: each branch gives back the
//! length that entered it.
use vstd::prelude::*;
use crate::cuda_ops;
use crate::index;
use crate::model::DConvLayer;
use crate::model::HDecLayer;
use crate::model::HEncLayer;
use crate::model::HTDemucs;
use crate::model::TDecLayer;
use crate::model::TEncLayer;
use crate::ops_cpu::conv;
use crate::ops_cpu::dconv;
use crate::ops_cpu::decoder;
use crate::ops_cpu::encoder;
use crate::ops_cpu::forward;
use crate::ops_cpu::transformer;
use crate::DEPTH;
use crate::N_FFT;

verus! {

/// A dilated kernel of three keeps the length, if the padding is the dilation.
pub proof fn dilated_keeps_length(n: int, dilation: int)
    ensures
        conv::forward_extent(n, dilation, 3, 1, dilation) == n,
{
}

/// A kernel of one keeps the length.
pub proof fn single_keeps_length(n: int)
    ensures
        conv::forward_extent(n, 0, 1, 1, 1) == n,
        conv::transposed_extent(n, 0, 1, 1) == n,
{
}

/// A kernel of eight with stride four and padding two divides a length by four, and the
/// transposed convolution multiplies it by four.
pub proof fn strided_divides_by_four(n: int)
    requires
        n >= 4,
    ensures
        conv::forward_extent(n, 2, 8, 4, 1) == n / 4,
        conv::transposed_extent(n, 2, 8, 4) == 4 * n,
{
}

/// Padded, a length is the next multiple of four.
pub proof fn padded_divides(t: int)
    ensures
        encoder::rounded_up(t) % 4 == 0,
        t <= encoder::rounded_up(t) < t + 4,
{
}

/// The graphics device and the processor agree on the lengths of the strided convolutions.
pub proof fn devices_agree_on_lengths(n: int)
    ensures
        cuda_ops::conv::quarter(n) == conv::forward_extent(n, 2, 8, 4, 1),
        cuda_ops::conv::fourfold(n) == conv::transposed_extent(n, 2, 8, 4),
{
}

/// The residual layers have kernels of three and one.
pub open spec fn plain_dconv<T>(layers: Seq<DConvLayer<T>>) -> bool {
    forall|j: int|
        #![trigger layers[j]]
        0 <= j < layers.len() ==> layers[j].conv1.k == 3 && layers[j].conv2.k == 1
}

/// The layer of the time encoder has the kernels that it should have.
pub open spec fn plain_tenc<T>(l: &TEncLayer<T>) -> bool {
    l.conv.k == 8 && l.rewrite.k == 1 && plain_dconv(l.dconv.layers@)
}

/// The layer of the time decoder has the kernels that it should have.
pub open spec fn plain_tdec<T>(l: &TDecLayer<T>) -> bool {
    l.rewrite.k == 3 && l.conv_tr.k == 8 && plain_dconv(l.dconv.layers@)
}

/// The layer of the frequency encoder has the kernels that it should have.
pub open spec fn plain_henc<T>(l: &HEncLayer<T>) -> bool {
    &&& l.conv.kh == 8 && l.conv.kw == 1
    &&& l.rewrite.kh == 1 && l.rewrite.kw == 1
    &&& plain_dconv(l.dconv.layers@)
}

/// The layer of the frequency decoder has the kernels that it should have.
pub open spec fn plain_hdec<T>(l: &HDecLayer<T>) -> bool {
    &&& l.rewrite.kh == 3 && l.rewrite.kw == 3
    &&& l.conv_tr.kh == 8 && l.conv_tr.kw == 1
    &&& plain_dconv(l.dconv.layers@)
}

/// The time branch has the kernels that it should have.
pub open spec fn plain_time<T>(m: &HTDemucs<T>) -> bool {
    &&& forall|i: int| 0 <= i < m.tencoders@.len() ==> plain_tenc(&#[trigger] m.tencoders@[i])
    &&& forall|i: int| 0 <= i < m.tdecoders@.len() ==> plain_tdec(&#[trigger] m.tdecoders@[i])
    &&& m.crosstransformer.channel_downsampler_t matches Some(w) ==> w.k == 1
}

/// The frequency branch has the kernels that it should have.
pub open spec fn plain_freq<T>(m: &HTDemucs<T>) -> bool {
    &&& forall|i: int| 0 <= i < m.encoders@.len() ==> plain_henc(&#[trigger] m.encoders@[i])
    &&& forall|i: int| 0 <= i < m.decoders@.len() ==> plain_hdec(&#[trigger] m.decoders@[i])
}

/// Residual layers keep the batch and the length.
pub proof fn dconv_keeps_length<T>(x_len: int, s: [usize; 3], layers: Seq<DConvLayer<T>>, j: int)
    requires
        plain_dconv(layers),
        dconv::dconv_ok(x_len, s, layers),
        0 <= j <= layers.len(),
    ensures
        dconv::dconv_shape(s, layers, j)[0] == s[0],
        dconv::dconv_shape(s, layers, j)[2] == s[2],
    decreases j,
{
    if j > 0 {
        dconv_keeps_length(x_len, s, layers, j - 1);
        reveal(dconv::dconv_ok);
        reveal(dconv::dconv_layer_shape);
        let l = layers[j - 1];
        let d = dconv::dilation(j - 1);
        let n = dconv::dconv_shape(s, layers, j - 1)[2] as int;
        dilated_keeps_length(n, d as usize as int);
        single_keeps_length(n);
    }
}

/// A layer of the time encoder divides the padded length by four.
proof fn lemma_tenc<T>(x_len: int, s: [usize; 3], l: &TEncLayer<T>)
    requires
        plain_tenc(l),
        encoder::tenc_ok(x_len, s, l),
    ensures
        encoder::tenc_shape(s, l)[2] == encoder::rounded_up(s[2] as int) / 4,
{
    reveal(encoder::tenc_ok);
    reveal(encoder::tenc_shape);
    reveal(conv::conv1d_ok);
    let n = encoder::rounded_up(s[2] as int);
    strided_divides_by_four(n);
    let h = encoder::tenc_conv_shape(s, l);
    dconv_keeps_length(
        index::size3(h),
        h,
        l.dconv.layers@,
        l.dconv.layers@.len() as int,
    );
    single_keeps_length(h[2] as int);
}

/// A layer of the time decoder keeps the batch and multiplies the length by four, up to the
/// target.
pub proof fn tdec_extents<T>(
    x_len: int,
    s: [usize; 3],
    skip_len: int,
    skip: [usize; 3],
    target: usize,
    l: &TDecLayer<T>,
)
    requires
        plain_tdec(l),
        decoder::tdec_ok(x_len, s, skip_len, skip, l),
    ensures
        decoder::tdec_shape(s, target, l)[0] == s[0],
        decoder::tdec_shape(s, target, l)[2] == decoder::shorter(4 * s[2], target as int),
{
    reveal(decoder::tdec_ok);
    reveal(decoder::tdec_shape);
    reveal(conv::conv_transpose1d_ok);
    let g = decoder::tdec_glu_shape(s, l);
    dilated_keeps_length(s[2] as int, 1);
    dconv_keeps_length(
        index::size3(g),
        g,
        l.dconv.layers@,
        l.dconv.layers@.len() as int,
    );
}

/// After each layer of the time decoder the length is what entered the encoder layer that it
/// mirrors.
proof fn lemma_time_decoded<T>(
    freq_len: int,
    fs: [usize; 4],
    time_len: int,
    ts: [usize; 3],
    m: &HTDemucs<T>,
    i: int,
)
    requires
        plain_time(m),
        forward::forward_ok(freq_len, fs, time_len, ts, m),
        0 <= i <= m.encoders@.len(),
    ensures
        ({
            let n = m.encoders@.len() as int;
            let s = transformer::time_out_shape(
                forward::time_chain_shape(ts, m.tencoders@, n),
                &m.crosstransformer,
            );
            forward::time_decoded_shape(s, ts, m.tencoders@, m.tdecoders@, n, i)[2]
                == forward::time_chain_shape(ts, m.tencoders@, n - i)[2]
        }),
    decreases i,
{
    if i == 0 {
        single_keeps_length(
            forward::time_chain_shape(ts, m.tencoders@, m.encoders@.len() as int)[2] as int,
        );
    } else {
        lemma_time_decoded(freq_len, fs, time_len, ts, m, i - 1);
        reveal(forward::forward_ok);
        reveal(forward::time_chain_ok);
        reveal(forward::time_decode_ok);
        let n = m.encoders@.len() as int;
        let s = transformer::time_out_shape(
            forward::time_chain_shape(ts, m.tencoders@, n),
            &m.crosstransformer,
        );
        let dec = m.tdecoders@[i - 1];
        let enc = m.tencoders@[n - i];
        let cur = forward::time_decoded_shape(s, ts, m.tencoders@, m.tdecoders@, n, i - 1);
        let x_len = if n - i == 0 {
            time_len
        } else {
            index::size3(forward::time_chain_shape(ts, m.tencoders@, n - i))
        };
        lemma_tenc(x_len, forward::time_chain_shape(ts, m.tencoders@, n - i), &enc);
        padded_divides(forward::time_chain_shape(ts, m.tencoders@, n - i)[2] as int);
        tdec_extents(
            index::size3(cur),
            cur,
            index::size3(forward::time_chain_shape(ts, m.tencoders@, n - (i - 1))),
            forward::time_chain_shape(ts, m.tencoders@, n - (i - 1)),
            forward::time_target(ts, m.tencoders@, n, i - 1),
            &dec,
        );
    }
}

/// The time branch gives as many samples as entered it.
pub proof fn time_branch_keeps_length<T>(
    freq_len: int,
    fs: [usize; 4],
    time_len: int,
    ts: [usize; 3],
    m: &HTDemucs<T>,
)
    requires
        plain_time(m),
        forward::forward_ok(freq_len, fs, time_len, ts, m),
    ensures
        forward::forward_time_shape(ts, m)[2] == ts[2],
{
    lemma_time_decoded(freq_len, fs, time_len, ts, m, m.encoders@.len() as int);
}

/// Residual layers for each frequency keep frequencies and frames.
proof fn lemma_per_frequency<T>(s: [usize; 4], layers: Seq<DConvLayer<T>>)
    requires
        plain_dconv(layers),
        encoder::per_frequency_ok(s, layers),
    ensures
        encoder::per_frequency_shape(s, layers)[2] == s[2],
        encoder::per_frequency_shape(s, layers)[3] == s[3],
{
    reveal(encoder::per_frequency_ok);
    dconv_keeps_length(
        index::size4(s),
        encoder::folded_shape(s),
        layers,
        layers.len() as int,
    );
}

/// A layer of the frequency encoder divides the number of frequencies by four and keeps the
/// frames.
proof fn lemma_henc<T>(x_len: int, s: [usize; 4], l: &HEncLayer<T>)
    requires
        plain_henc(l),
        encoder::henc_ok(x_len, s, l),
    ensures
        encoder::henc_shape(s, l)[2] == s[2] / 4,
        encoder::henc_shape(s, l)[3] == s[3],
{
    reveal(encoder::henc_ok);
    reveal(encoder::henc_shape);
    reveal(conv::conv2d_ok);
    let h = encoder::henc_conv_shape(s, l);
    strided_divides_by_four(s[2] as int);
    single_keeps_length(s[3] as int);
    lemma_per_frequency(h, l.dconv.layers@);
    single_keeps_length(h[2] as int);
    single_keeps_length(h[3] as int);
}

/// A layer of the frequency decoder multiplies the number of frequencies by four, up to the
/// target, and keeps the batch and the frames.
pub proof fn hdec_extents<T>(
    x_len: int,
    s: [usize; 4],
    skip_len: int,
    skip: [usize; 4],
    target: usize,
    l: &HDecLayer<T>,
)
    requires
        plain_hdec(l),
        decoder::hdec_ok(x_len, s, skip_len, skip, l),
    ensures
        decoder::hdec_shape(s, target, l)[0] == s[0],
        decoder::hdec_shape(s, target, l)[2] == decoder::shorter(4 * s[2], target as int),
        decoder::hdec_shape(s, target, l)[3] == s[3],
{
    reveal(decoder::hdec_ok);
    reveal(decoder::hdec_shape);
    reveal(conv::conv_transpose2d_ok);
    let g = decoder::hdec_glu_shape(s, l);
    dilated_keeps_length(s[2] as int, 1);
    dilated_keeps_length(s[3] as int, 1);
    lemma_per_frequency(g, l.dconv.layers@);
    single_keeps_length(s[3] as int);
}

/// A number divided by four, `k` times.
pub open spec fn quartered(h: int, k: int) -> int
    decreases k,
{
    if k <= 0 {
        h
    } else {
        quartered(h, k - 1) / 4
    }
}

/// The frequencies and frames after each layer of the frequency encoder.
proof fn lemma_freq_chain<T>(
    freq_len: int,
    fs: [usize; 4],
    time_len: int,
    ts: [usize; 3],
    m: &HTDemucs<T>,
    i: int,
)
    requires
        plain_freq(m),
        forward::forward_ok(freq_len, fs, time_len, ts, m),
        0 <= i <= m.encoders@.len(),
    ensures
        encoder::freq_chain_shape(fs, m.encoders@, i)[2] == quartered(fs[2] as int, i),
        encoder::freq_chain_shape(fs, m.encoders@, i)[3] == fs[3],
    decreases i,
{
    if i > 0 {
        lemma_freq_chain(freq_len, fs, time_len, ts, m, i - 1);
        reveal(forward::forward_ok);
        reveal(encoder::freq_chain_ok);
        let l = m.encoders@[i - 1];
        let s = encoder::freq_chain_shape(fs, m.encoders@, i - 1);
        let x_len = if i - 1 == 0 {
            freq_len
        } else {
            index::size4(s)
        };
        lemma_henc(x_len, s, &l);
    }
}

/// After each layer of the frequency decoder there are as many frequencies as entered the
/// encoder layer that it mirrors.
proof fn lemma_freq_decoded<T>(
    freq_len: int,
    fs: [usize; 4],
    time_len: int,
    ts: [usize; 3],
    m: &HTDemucs<T>,
    i: int,
)
    requires
        plain_freq(m),
        forward::forward_ok(freq_len, fs, time_len, ts, m),
        fs[2] == N_FFT / 2,
        forall|k: int|
            0 <= k < m.encoders@.len() ==> #[trigger] quartered(fs[2] as int, k) % 4 == 0,
        0 <= i <= m.encoders@.len(),
    ensures
        ({
            let n = m.encoders@.len() as int;
            let s = transformer::freq_out_shape(
                encoder::freq_chain_shape(fs, m.encoders@, n),
                &m.crosstransformer,
            );
            let d = forward::freq_decoded_shape(s, fs, m.encoders@, m.decoders@, n, i);
            d[2] == quartered(fs[2] as int, n - i) && d[3] == fs[3]
        }),
    decreases i,
{
    let n = m.encoders@.len() as int;
    let s = transformer::freq_out_shape(
        encoder::freq_chain_shape(fs, m.encoders@, n),
        &m.crosstransformer,
    );
    if i == 0 {
        lemma_freq_chain(freq_len, fs, time_len, ts, m, n);
    } else {
        lemma_freq_decoded(freq_len, fs, time_len, ts, m, i - 1);
        lemma_freq_chain(freq_len, fs, time_len, ts, m, n - i);
        reveal(forward::forward_ok);
        reveal(forward::freq_decode_ok);
        let dec = m.decoders@[i - 1];
        let cur = forward::freq_decoded_shape(s, fs, m.encoders@, m.decoders@, n, i - 1);
        let skip = encoder::freq_chain_shape(fs, m.encoders@, n - (i - 1));
        let target = forward::freq_target(fs, m.encoders@, n, i - 1);
        assert(quartered(fs[2] as int, n - i) % 4 == 0);
        assert(quartered(fs[2] as int, n - i + 1) == quartered(fs[2] as int, n - i) / 4);
        hdec_extents(
            index::size4(cur),
            cur,
            index::size4(skip),
            skip,
            target,
            &dec,
        );
    }
}

/// The frequency branch gives as many frequencies and frames as entered it: a model of the
/// usual depth takes spectrograms of `N_FFT / 2` bins.
pub proof fn freq_branch_keeps_grid<T>(
    freq_len: int,
    fs: [usize; 4],
    time_len: int,
    ts: [usize; 3],
    m: &HTDemucs<T>,
)
    requires
        plain_freq(m),
        forward::forward_ok(freq_len, fs, time_len, ts, m),
        fs[2] == N_FFT / 2,
        m.encoders@.len() == DEPTH,
    ensures
        forward::forward_freq_shape(fs, m)[2] == fs[2],
        forward::forward_freq_shape(fs, m)[3] == fs[3],
{
    assert forall|k: int| 0 <= k < m.encoders@.len() implies #[trigger] quartered(
        fs[2] as int,
        k,
    ) % 4 == 0 by {
        reveal_with_fuel(quartered, 5);
    }
    lemma_freq_decoded(freq_len, fs, time_len, ts, m, m.encoders@.len() as int);
}

} // verus!
