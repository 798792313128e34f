//! How kernels are started.
use vstd::prelude::*;
use crate::launch;
use crate::launch::Argument;
use crate::launch::LaunchConfig;
use crate::program;
use crate::program::Factor;
use crate::program::Ints;
use crate::program::Kernel;
use crate::program::Launch;
use crate::program::Step;

verus! {

/// The kernel is compiled under the name.
pub open spec fn kernel_is_called(k: Kernel, name: Seq<char>) -> bool {
    program::kernel_name(k) == name
}

/// A kernel is found under the name of what it does.
pub proof fn kernels_are_called_by_what_they_do(k: Kernel)
    ensures
        k is Noop ==> kernel_is_called(k, "noop_placeholder"@),
        k is GroupNorm1 ==> kernel_is_called(k, "groupnorm1_f16"@),
        k is GluChannel ==> kernel_is_called(k, "glu_channel_f16"@),
        k is LayerScale ==> kernel_is_called(k, "layer_scale_f16"@),
        k is LayerScaleLast ==> kernel_is_called(k, "layer_scale_last_f16"@),
        k is AddBiasInplace ==> kernel_is_called(k, "add_bias_inplace_f16"@),
        k is AddTo ==> kernel_is_called(k, "add_to_f16"@),
        k is AddInplace ==> kernel_is_called(k, "add_inplace_f16"@),
        k is AddPe ==> kernel_is_called(k, "add_pe_f16"@),
        k is AddFreqEmb ==> kernel_is_called(k, "add_freq_emb_f16"@),
        k is SoftmaxScaled ==> kernel_is_called(k, "softmax_scaled_f16"@),
        k is DenormFreq ==> kernel_is_called(k, "denorm_freq_f16"@),
        k is NormFreq ==> kernel_is_called(k, "norm_freq_f16"@),
        k is LayerNorm ==> kernel_is_called(k, "layer_norm_f16"@),
        k is SwapDims123d ==> kernel_is_called(k, "swap_dims_12_3d_f16"@),
        k is SwapDims124d ==> kernel_is_called(k, "swap_dims_12_4d_f16"@),
        k is PermuteBcftToBtcf ==> kernel_is_called(k, "permute_bcft_to_btcf_f16"@),
        k is Transpose ==> kernel_is_called(k, "transpose_f16"@),
        k is Gelu ==> kernel_is_called(k, "gelu_f16"@),
        k is GeluBias ==> kernel_is_called(k, "gelu_bias_f16"@),
        k is Im2col8x1S4P2 ==> kernel_is_called(k, "im2col_8x1_s4p2_f16"@),
        k is Im2col8S4P21d ==> kernel_is_called(k, "im2col_8_s4p2_1d_f16"@),
        k is Im2col3x3S1P1 ==> kernel_is_called(k, "im2col_3x3_s1p1_f16"@),
        k is Im2col1dK3Dilation ==> kernel_is_called(k, "im2col_1d_k3_dilation_f16"@),
        k is Im2col1dK1 ==> kernel_is_called(k, "im2col_1d_k1_f16"@),
        k is Im2colConvTranspose8x1S4P2 ==> kernel_is_called(
            k,
            "im2col_conv_transpose_8x1_s4p2_f16"@,
        ),
        k is Im2colConvTranspose8S4P21d ==> kernel_is_called(
            k,
            "im2col_conv_transpose_8_s4p2_1d_f16"@,
        ),
        k is Conv2dPostprocess ==> kernel_is_called(k, "conv2d_postprocess_f16"@),
        k is TrimH2 ==> kernel_is_called(k, "trim_h2_f16"@),
        k is TrimL ==> kernel_is_called(k, "trim_l_f16"@),
        k is ZeroPadRight ==> kernel_is_called(k, "zero_pad_right_f16"@),
        k is ReshapeBcftToBfct ==> kernel_is_called(k, "reshape_bcft_to_bfct_f16"@),
        k is ReshapeBfctToBcft ==> kernel_is_called(k, "reshape_bfct_to_bcft_f16"@),
        k is TransposeBchwToBhwc ==> kernel_is_called(k, "transpose_bchw_to_bhwc_f16"@),
        k is TransposeBhwcToBchw ==> kernel_is_called(k, "transpose_bhwc_to_bchw_f16"@),
        k is PermuteBsdToBhsd ==> kernel_is_called(k, "permute_bsd_to_bhsd_f16"@),
        k is PermuteBhsdToBsd ==> kernel_is_called(k, "permute_bhsd_to_bsd_f16"@),
        k is PermuteBhsdToBhds ==> kernel_is_called(k, "permute_bhsd_to_bhds_f16"@),
        k is CopyPerHead ==> kernel_is_called(k, "copy_per_head_f16"@),
        k is ScatterPerHead ==> kernel_is_called(k, "scatter_per_head_f16"@),
        k is FlattenBcftToBtfc ==> kernel_is_called(k, "flatten_bcft_to_btfc_f16"@),
        k is UnflattenBtfcToBcft ==> kernel_is_called(k, "unflatten_btfc_to_bcft_f16"@),
        k is ConvertToSingle ==> kernel_is_called(k, "convert_f16_to_f32_f32"@),
{
}

/// One thread makes each element of a result, for all kernels but those that share the work on a
/// row or on a patch.
pub proof fn launches_have_a_thread_for_each_element(l: Launch, c: LaunchConfig)
    requires
        l.len > 0,
        launch::config_of(l) == Some(c),
        launch::patches(l.kernel, l.ints) is None,
        !(l.kernel is GroupNorm1),
        !(l.kernel is LayerNorm),
        !(l.kernel is AddFreqEmb),
        !(l.kernel is SoftmaxScaled),
        !(l.kernel is ConvertToSingle),
        !(l.kernel is CopyPerHead),
        !(l.kernel is ScatterPerHead),
    ensures
        c.grid_y == 1,
        c.grid_z == 1,
        c.grid_x * c.block >= l.len,
        (c.grid_x - 1) * c.block < l.len,
        c.block <= 1024,
{
    launch::groups_cover(l.len as int, 256);
    let n = l.len as int;
    assert(0 <= (n + 256 - 1) / 256 <= n);
}

/// The kernels that share the work: a norm over an entry has a block for each entry and memory for
/// two sums of each thread, a norm over a row a block for each row; softmax has eight rows to a
/// block, thirty-two threads to a row; the embedding has a block for each channel, frequency and
/// entry; the copy of a head has a thread for each of its elements, and the widening one for each
/// element.
pub proof fn shared_work_is_covered(l: Launch, c: LaunchConfig)
    requires
        l.len > 0,
        launch::config_of(l) == Some(c),
    ensures
        l.kernel is GroupNorm1 ==> c.grid_x == l.ints.a && c.grid_y == 1 && c.grid_z == 1
            && 1 <= c.block <= 1024 && (l.ints.b * l.ints.c <= 1024 ==> c.block >= l.ints.b
            * l.ints.c) && c.shared_mem_bytes == 8 * c.block,
        l.kernel is LayerNorm ==> c.grid_x == l.ints.b && c.block == 256 && c.shared_mem_bytes == 8
            * c.block,
        l.kernel is SoftmaxScaled && l.ints.a * l.ints.b > 0 ==> c.grid_x * 8 >= l.ints.a
            * l.ints.b && (c.grid_x - 1) * 8 < l.ints.a * l.ints.b && c.block == 8 * 32,
        l.kernel is AddFreqEmb ==> c.grid_x == l.ints.b && c.grid_y == l.ints.c && c.grid_z
            == l.ints.a,
        (l.kernel is CopyPerHead || l.kernel is ScatterPerHead) && l.ints.b * l.ints.c > 0
            ==> c.grid_x * c.block >= l.ints.b * l.ints.c,
        l.kernel is ConvertToSingle && l.ints.a > 0 ==> c.grid_x * c.block >= l.ints.a,
{
    let rows = l.ints.a * l.ints.b;
    let n = l.ints.b * l.ints.c;
    launch::block_size_fits(n);
    if rows > 0 {
        launch::groups_cover(rows, 8);
    }
    if n > 0 {
        launch::groups_cover(n, 256);
    }
    if l.ints.a > 0 {
        launch::groups_cover(l.ints.a as int, 1024);
    }
}

/// The number of taps of the kernel that unfolds.
pub open spec fn taps(k: Kernel) -> int {
    match k {
        Kernel::Im2col1dK1 => 1,
        Kernel::Im2col1dK3Dilation => 3,
        Kernel::Im2col3x3S1P1 => 9,
        _ => 8,
    }
}

/// Unfolding has a block for each patch: the blocks and what is in a patch, the taps of each input
/// channel, make up the result.
pub proof fn patches_have_a_block_each(s: Seq<Step>, l: Launch, c: LaunchConfig)
    requires
        program::launch_ok(s, l),
        launch::patches(l.kernel, l.ints) is Some,
        launch::config_of(l) == Some(c),
    ensures
        c.grid_x * (l.ints.b * taps(l.kernel)) == l.len,
        c.grid_y == 1,
        c.grid_z == 1,
        c.block == 256,
        c.shared_mem_bytes == 0,
{
    reveal(program::launch_ok);
    let i = l.ints;
    assert(0 <= i.a * i.c && 0 <= i.a * i.d && 0 <= i.a * i.e && 0 <= i.a * i.e * i.f)
        by (nonlinear_arith);
}

/// The length of the values that a kernel reads.
proof fn lemma_reads(l: Launch, j: int)
    requires
        0 <= j <= l.reads,
    ensures
        launch::reads_from(l, j).len() == l.reads - j,
        forall|i: int|
            0 <= i < l.reads - j ==> #[trigger] launch::reads_from(l, j)[i] == Argument::Value(
                launch::read_at(l, j + i),
            ),
    decreases l.reads - j,
{
    if j < l.reads {
        lemma_reads(l, j + 1);
        let v = launch::reads_from(l, j + 1);
        assert forall|i: int| 0 <= i < l.reads - j implies #[trigger] launch::reads_from(l, j)[i]
            == Argument::Value(launch::read_at(l, j + i)) by {
            if i > 0 {
                assert(launch::reads_from(l, j)[i] == v[i - 1]);
            }
        }
    }
}

/// The length of the integers that a kernel is handed.
proof fn lemma_ints(i: Ints, j: int)
    requires
        0 <= j <= i.n,
    ensures
        launch::ints_from(i, j).len() == i.n - j,
        forall|k: int|
            0 <= k < i.n - j ==> #[trigger] launch::ints_from(i, j)[k] == Argument::Int(
                launch::int_at(i, j + k),
            ),
    decreases i.n - j,
{
    if j < i.n {
        lemma_ints(i, j + 1);
        let v = launch::ints_from(i, j + 1);
        assert forall|k: int| 0 <= k < i.n - j implies #[trigger] launch::ints_from(i, j)[k]
            == Argument::Int(launch::int_at(i, j + k)) by {
            if k > 0 {
                assert(launch::ints_from(i, j)[k] == v[k - 1]);
            }
        }
    }
}

/// A kernel is handed the place of its result, then what it reads, in order, then the integers, in
/// order, and at last the factor, if there is one. A kernel that works in place finds the first of
/// what it reads in the place of its result.
pub proof fn arguments_are_in_order(l: Launch)
    requires
        1 <= l.reads <= 3,
        l.ints.n <= 8,
    ensures
        ({
            let v = launch::arguments_of(l);
            let first: int = if program::works_in_place(l.kernel) {
                1
            } else {
                0
            };
            let at = 1 + l.reads - first;
            &&& v[0] == Argument::Result
            &&& first == 0 ==> v[1] == Argument::Value(l.x)
            &&& l.reads >= 2 ==> v[2 - first] == Argument::Value(l.y)
            &&& l.reads >= 3 ==> v[3 - first] == Argument::Value(l.z)
            &&& l.ints.n >= 1 ==> v[at] == Argument::Int(l.ints.a)
            &&& l.ints.n >= 2 ==> v[at + 1] == Argument::Int(l.ints.b)
            &&& l.ints.n >= 3 ==> v[at + 2] == Argument::Int(l.ints.c)
            &&& l.ints.n >= 4 ==> v[at + 3] == Argument::Int(l.ints.d)
            &&& l.ints.n >= 5 ==> v[at + 4] == Argument::Int(l.ints.e)
            &&& l.ints.n >= 6 ==> v[at + 5] == Argument::Int(l.ints.f)
            &&& l.ints.n >= 7 ==> v[at + 6] == Argument::Int(l.ints.g)
            &&& l.ints.n >= 8 ==> v[at + 7] == Argument::Int(l.ints.h)
            &&& l.factor is Absent ==> v.len() == at + l.ints.n
            &&& !(l.factor is Absent) ==> v.len() == at + l.ints.n + 1 && v[at + l.ints.n]
                == Argument::Factor(l.factor)
        }),
{
    let first: int = if program::works_in_place(l.kernel) {
        1
    } else {
        0
    };
    lemma_reads(l, first);
    lemma_ints(l.ints, 0);
    let r = launch::reads_from(l, first);
    let i = launch::ints_from(l.ints, 0);
    let v = launch::arguments_of(l);
    let at = 1 + l.reads - first;
    assert forall|k: int| 0 <= k < r.len() implies v[1 + k] == r[k] by {}
    assert forall|k: int| 0 <= k < i.len() implies v[at + k] == i[k] by {}
    if l.reads >= 2 {
        assert(v[1 + (1 - first)] == r[1 - first]);
    }
    if l.reads >= 3 {
        assert(v[1 + (2 - first)] == r[2 - first]);
    }
    if l.ints.n >= 1 {
        assert(v[at + 0] == i[0]);
    }
}

} // verus!
