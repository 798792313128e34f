//! Operators that go over a tensor element by element or row by row.
use vstd::prelude::*;
use crate::error::DemucsError;
use crate::gpu_model;
use crate::gpu_model::GpuFreqEmb;
use crate::gpu_model::GpuGroupNorm1;
use crate::gpu_model::GpuLayerNorm1;
use crate::gpu_model::GpuLayerScale;
use crate::gpu_tensor;
use crate::gpu_tensor::moved;
use crate::gpu_tensor::tensor2;
use crate::gpu_tensor::tensor3;
use crate::gpu_tensor::Built;
use crate::gpu_tensor::GpuBuffer;
use crate::gpu_tensor::GpuTensor;
use crate::program;
use crate::program::ints1;
use crate::program::ints2;
use crate::program::ints3;
use crate::program::ints4;
use crate::program::Ints;
use crate::program::Kernel;
use crate::program::Launch;
use crate::program::Program;
use crate::program::Factor;
use crate::program::Step;
use crate::program::LIMIT;
use crate::text;

verus! {

/// The start of a kernel that reads one value.
#[verifier::allow_in_spec]
pub fn launch1(kernel: Kernel, x: GpuBuffer, ints: Ints, factor: Factor, len: usize) -> Launch
    returns
        (Launch { kernel, reads: 1, x: x.id, y: 0, z: 0, ints, factor, len }),
{
    Launch { kernel, reads: 1, x: x.id, y: 0, z: 0, ints, factor, len }
}

/// The start of a kernel that reads two values.
#[verifier::allow_in_spec]
pub fn launch2(kernel: Kernel, x: GpuBuffer, y: GpuBuffer, ints: Ints, len: usize) -> Launch
    returns
        (Launch { kernel, reads: 2, x: x.id, y: y.id, z: 0, ints, factor: Factor::Absent, len }),
{
    Launch { kernel, reads: 2, x: x.id, y: y.id, z: 0, ints, factor: Factor::Absent, len }
}

/// The start of a kernel that reads three values.
#[verifier::allow_in_spec]
pub fn launch3(
    kernel: Kernel,
    x: GpuBuffer,
    y: GpuBuffer,
    z: GpuBuffer,
    ints: Ints,
    factor: Factor,
    len: usize,
) -> Launch
    returns
        (Launch { kernel, reads: 3, x: x.id, y: y.id, z: z.id, ints, factor, len }),
{
    Launch { kernel, reads: 3, x: x.id, y: y.id, z: z.id, ints, factor, len }
}

/// The program `s` with the kernel added, and the tensor that it makes, of the shape of `t`.
pub open spec fn launched(s: Seq<Step>, l: Launch, t: GpuTensor) -> Built<GpuTensor> {
    Ok((s.push(Step::Launch(l)), moved(t, s.len() as usize)))
}

/// An operator went as `b` says, from the program `before` to the program `s`.
pub open spec fn good(
    before: Seq<Step>,
    b: Built<GpuTensor>,
    r: Result<GpuTensor, DemucsError>,
    s: Seq<Step>,
) -> bool {
    &&& gpu_tensor::built(b, r, s)
    &&& program::program_ok(s)
    &&& program::extends(before, s)
    &&& r is Ok ==> gpu_tensor::tensor_ok(s, r->Ok_0)
}

/// Adds a kernel to the program.
pub fn start(p: &mut Program, l: Launch, t: GpuTensor) -> (r: Result<GpuTensor, DemucsError>)
    requires
        program::program_ok(old(p)@),
        program::launch_ok(old(p)@, l),
        gpu_tensor::shape_ok(t),
        t.data.len == l.len,
    ensures
        r is Ok,
        good(old(p)@, launched(old(p)@, l, t), r, final(p)@),
{
    let id: usize = p.push(Step::Launch(l));
    Ok(moved(t, id))
}

/// The steps of [`gelu_inplace`].
pub open spec fn gelu_steps(s: Seq<Step>, x: GpuTensor) -> Built<GpuTensor> {
    if x.data.len == 0 {
        Ok((s, x))
    } else {
        launched(
            s,
            launch1(Kernel::Gelu, x.data, ints1(x.data.len), Factor::Absent, x.data.len),
            x,
        )
    }
}

/// Applies GELU to every element.
pub fn gelu_inplace(p: &mut Program, x: GpuTensor) -> (r: Result<GpuTensor, DemucsError>)
    requires
        program::program_ok(old(p)@),
        gpu_tensor::tensor_ok(old(p)@, x),
    ensures
        r is Ok,
        good(old(p)@, gelu_steps(old(p)@, x), r, final(p)@),
{
    let n: usize = x.data.len;
    if n == 0 {
        return Ok(x);
    }
    let l: Launch = launch1(Kernel::Gelu, x.data, ints1(n), Factor::Absent, n);
    proof {
        reveal(program::launch_ok);
    }
    start(p, l, x)
}

/// The steps of [`layer_scale_inplace`].
pub open spec fn layer_scale_steps(
    s: Seq<Step>,
    x: GpuTensor,
    scale: GpuLayerScale,
) -> Built<GpuTensor> {
    if x.data.len == 0 {
        Ok((s, x))
    } else if scale.scale.len < x.d1 {
        Err(gpu_tensor::too_short())
    } else {
        launched(
            s,
            launch2(Kernel::LayerScale, x.data, scale.scale, ints3(x.d0, x.d1, x.d2), x.data.len),
            x,
        )
    }
}

/// Multiplies each channel of `[b, c, l]` by its scale.
pub fn layer_scale_inplace(p: &mut Program, x: GpuTensor, scale: &GpuLayerScale) -> (r: Result<
    GpuTensor,
    DemucsError,
>)
    requires
        program::program_ok(old(p)@),
        gpu_tensor::tensor_ok(old(p)@, x),
        x.rank == 3,
        gpu_tensor::buffer_ok(old(p)@, scale.scale),
    ensures
        good(old(p)@, layer_scale_steps(old(p)@, x, *scale), r, final(p)@),
{
    let n: usize = x.data.len;
    if n == 0 {
        return Ok(x);
    }
    if scale.scale.len < x.d1 {
        return Err(gpu_tensor::short());
    }
    let l: Launch = launch2(Kernel::LayerScale, x.data, scale.scale, ints3(x.d0, x.d1, x.d2), n);
    proof {
        reveal(program::launch_ok);
    }
    start(p, l, x)
}

/// Size of the last axis.
pub open spec fn last_axis(x: GpuTensor) -> usize {
    if x.rank == 2 {
        x.d1
    } else if x.rank == 3 {
        x.d2
    } else {
        x.d3
    }
}

/// The steps of [`layer_scale_last_inplace`].
pub open spec fn layer_scale_last_steps(s: Seq<Step>, x: GpuTensor, scale: GpuLayerScale) -> Built<
    GpuTensor,
> {
    if x.data.len == 0 {
        Ok((s, x))
    } else if scale.scale.len < last_axis(x) {
        Err(gpu_tensor::too_short())
    } else {
        launched(
            s,
            launch2(
                Kernel::LayerScaleLast,
                x.data,
                scale.scale,
                ints2(x.data.len, last_axis(x)),
                x.data.len,
            ),
            x,
        )
    }
}

/// Multiplies each entry of the last axis by its scale.
pub fn layer_scale_last_inplace(p: &mut Program, x: GpuTensor, scale: &GpuLayerScale) -> (r: Result<
    GpuTensor,
    DemucsError,
>)
    requires
        program::program_ok(old(p)@),
        gpu_tensor::tensor_ok(old(p)@, x),
        gpu_tensor::buffer_ok(old(p)@, scale.scale),
    ensures
        good(old(p)@, layer_scale_last_steps(old(p)@, x, *scale), r, final(p)@),
{
    let n: usize = x.data.len;
    if n == 0 {
        return Ok(x);
    }
    let last: usize = if x.rank == 2 {
        x.d1
    } else if x.rank == 3 {
        x.d2
    } else {
        x.d3
    };
    if scale.scale.len < last {
        return Err(gpu_tensor::short());
    }
    let l: Launch = launch2(Kernel::LayerScaleLast, x.data, scale.scale, ints2(n, last), n);
    proof {
        reveal(program::launch_ok);
    }
    start(p, l, x)
}

/// The text of the error for tensors that cannot be added.
pub open spec fn add_to_text(x: GpuTensor, y: GpuTensor) -> Seq<char> {
    "add_to: shape mismatch (a.numel="@ + text::decimal_text(x.data.len as nat) + " != b.numel="@
        + text::decimal_text(y.data.len as nat) + ") a.shape="@ + text::list_text(
        gpu_tensor::shape_of(x),
    ) + " b.shape="@ + text::list_text(gpu_tensor::shape_of(y))
}

/// The steps of [`add_to`].
pub open spec fn add_to_steps(s: Seq<Step>, x: GpuTensor, y: GpuTensor) -> Built<GpuTensor> {
    if x.data.len != y.data.len {
        Err(add_to_text(x, y))
    } else {
        launched(s, launch2(Kernel::AddTo, x.data, y.data, ints1(x.data.len), x.data.len), x)
    }
}

/// Adds two tensors.
pub fn add_to(p: &mut Program, x: GpuTensor, y: GpuTensor) -> (r: Result<GpuTensor, DemucsError>)
    requires
        program::program_ok(old(p)@),
        gpu_tensor::tensor_ok(old(p)@, x),
        gpu_tensor::tensor_ok(old(p)@, y),
    ensures
        good(old(p)@, add_to_steps(old(p)@, x, y), r, final(p)@),
{
    if x.data.len != y.data.len {
        let m: String = text::more_number("add_to: shape mismatch (a.numel=".to_owned(), x.numel());
        let m: String = text::more_number(text::more(m, " != b.numel="), y.numel());
        let xs: String = text::list(&x.shape());
        let ys: String = text::list(&y.shape());
        let m: String = text::more(text::more(m, ") a.shape="), xs.as_str());
        let m: String = text::more(text::more(m, " b.shape="), ys.as_str());
        return Err(DemucsError::Shape(m));
    }
    let n: usize = x.data.len;
    let l: Launch = launch2(Kernel::AddTo, x.data, y.data, ints1(n), n);
    proof {
        reveal(program::launch_ok);
    }
    start(p, l, x)
}

/// The steps of [`groupnorm1_inplace`].
pub open spec fn groupnorm1_steps(
    s: Seq<Step>,
    x: GpuTensor,
    gn: GpuGroupNorm1,
) -> Built<GpuTensor> {
    if x.data.len == 0 {
        Ok((s, x))
    } else if gn.gamma.len < x.d1 || gn.beta.len < x.d1 {
        Err(gpu_tensor::too_short())
    } else {
        launched(
            s,
            launch3(
                Kernel::GroupNorm1,
                x.data,
                gn.gamma,
                gn.beta,
                ints3(x.d0, x.d1, x.d2),
                Factor::Epsilon,
                x.data.len,
            ),
            x,
        )
    }
}

/// Normalizes each batch of `[b, c, l]` over channels and positions.
pub fn groupnorm1_inplace(p: &mut Program, x: GpuTensor, gn: &GpuGroupNorm1) -> (r: Result<
    GpuTensor,
    DemucsError,
>)
    requires
        program::program_ok(old(p)@),
        gpu_tensor::tensor_ok(old(p)@, x),
        x.rank == 3,
        gpu_model::group_norm_ok(old(p)@, *gn),
    ensures
        good(old(p)@, groupnorm1_steps(old(p)@, x, *gn), r, final(p)@),
{
    let n: usize = x.data.len;
    if n == 0 {
        return Ok(x);
    }
    if gn.gamma.len < x.d1 || gn.beta.len < x.d1 {
        return Err(gpu_tensor::short());
    }
    let l: Launch = launch3(
        Kernel::GroupNorm1,
        x.data,
        gn.gamma,
        gn.beta,
        ints3(x.d0, x.d1, x.d2),
        Factor::Epsilon,
        n,
    );
    proof {
        reveal(program::launch_ok);
        assert(x.d1 * x.d2 <= n) by (nonlinear_arith)
            requires
                n == x.d0 * x.d1 * x.d2,
                n > 0,
        ;
    }
    start(p, l, x)
}

/// The steps of [`layer_norm`].
pub open spec fn layer_norm_steps(
    s: Seq<Step>,
    x: GpuTensor,
    ln: GpuLayerNorm1,
    outer: usize,
    last: usize,
) -> Built<GpuTensor> {
    match gpu_tensor::size2(outer, last) {
        None => Err(gpu_tensor::too_large()),
        Some(n) => if x.data.len < n || ln.gamma.len < last || ln.beta.len < last {
            Err(gpu_tensor::too_short())
        } else {
            launched(
                s,
                launch3(
                    Kernel::LayerNorm,
                    x.data,
                    ln.gamma,
                    ln.beta,
                    ints2(last, outer),
                    Factor::Epsilon,
                    n,
                ),
                tensor2(0, n, outer, last),
            )
        },
    }
}

/// Normalizes each of `outer` rows of `last` elements.
pub fn layer_norm(p: &mut Program, x: GpuTensor, ln: &GpuLayerNorm1, outer: usize, last: usize) -> (r: Result<
    GpuTensor,
    DemucsError,
>)
    requires
        program::program_ok(old(p)@),
        gpu_tensor::tensor_ok(old(p)@, x),
        gpu_model::layer_norm_ok(old(p)@, *ln),
    ensures
        good(old(p)@, layer_norm_steps(old(p)@, x, *ln, outer, last), r, final(p)@),
{
    let n: usize = match gpu_tensor::count2(outer, last) {
        Some(n) => n,
        None => {
            return Err(gpu_tensor::large());
        },
    };
    if x.data.len < n || ln.gamma.len < last || ln.beta.len < last {
        return Err(gpu_tensor::short());
    }
    let l: Launch = launch3(
        Kernel::LayerNorm,
        x.data,
        ln.gamma,
        ln.beta,
        ints2(last, outer),
        Factor::Epsilon,
        n,
    );
    proof {
        reveal(program::launch_ok);
    }
    start(p, l, tensor2(0, n, outer, last))
}

/// The steps of [`glu_channel`].
pub open spec fn glu_channel_steps(s: Seq<Step>, x: GpuTensor) -> Built<GpuTensor> {
    if x.d1 % 2 != 0 {
        Err("glu_channel: c2="@ + text::decimal_text(x.d1 as nat) + " not even"@)
    } else {
        match gpu_tensor::size3(x.d0, x.d1 / 2, x.d2) {
            None => Err(gpu_tensor::too_large()),
            Some(n) => launched(
                s,
                launch1(Kernel::GluChannel, x.data, ints3(x.d0, x.d1 / 2, x.d2), Factor::Absent, n),
                tensor3(0, n, x.d0, x.d1 / 2, x.d2),
            ),
        }
    }
}

/// Halves the channels of `[b, 2c, l]`.
pub fn glu_channel(p: &mut Program, x: GpuTensor) -> (r: Result<GpuTensor, DemucsError>)
    requires
        program::program_ok(old(p)@),
        gpu_tensor::tensor_ok(old(p)@, x),
        x.rank == 3,
    ensures
        good(old(p)@, glu_channel_steps(old(p)@, x), r, final(p)@),
{
    if x.d1 % 2 != 0 {
        let m: String = text::more_number("glu_channel: c2=".to_owned(), x.d1);
        return Err(DemucsError::Shape(text::more(m, " not even")));
    }
    let c: usize = x.d1 / 2;
    let n: usize = match gpu_tensor::count3(x.d0, c, x.d2) {
        Some(n) => n,
        None => {
            return Err(gpu_tensor::large());
        },
    };
    let l: Launch = launch1(Kernel::GluChannel, x.data, ints3(x.d0, c, x.d2), Factor::Absent, n);
    proof {
        reveal(program::launch_ok);
        assert(2 * c == x.d1);
    }
    start(p, l, tensor3(0, n, x.d0, c, x.d2))
}

/// The steps of [`add_inplace`].
pub open spec fn add_inplace_steps(s: Seq<Step>, x: GpuTensor, y: GpuTensor) -> Built<GpuTensor> {
    if x.data.len != y.data.len {
        Err(
            "add_inplace: a.numel="@ + text::decimal_text(x.data.len as nat) + " != b.numel="@
                + text::decimal_text(y.data.len as nat),
        )
    } else if x.data.len == 0 {
        Ok((s, x))
    } else {
        launched(s, launch2(Kernel::AddInplace, x.data, y.data, ints1(x.data.len), x.data.len), x)
    }
}

/// Adds the second tensor to the first.
pub fn add_inplace(
    p: &mut Program,
    x: GpuTensor,
    y: GpuTensor,
) -> (r: Result<GpuTensor, DemucsError>)
    requires
        program::program_ok(old(p)@),
        gpu_tensor::tensor_ok(old(p)@, x),
        gpu_tensor::tensor_ok(old(p)@, y),
    ensures
        good(old(p)@, add_inplace_steps(old(p)@, x, y), r, final(p)@),
{
    if x.data.len != y.data.len {
        let m: String = text::more_number("add_inplace: a.numel=".to_owned(), x.numel());
        let m: String = text::more_number(text::more(m, " != b.numel="), y.numel());
        return Err(DemucsError::Shape(m));
    }
    let n: usize = x.data.len;
    if n == 0 {
        return Ok(x);
    }
    let l: Launch = launch2(Kernel::AddInplace, x.data, y.data, ints1(n), n);
    proof {
        reveal(program::launch_ok);
    }
    start(p, l, x)
}

/// The steps of [`add_freq_emb_inplace`].
pub open spec fn add_freq_emb_steps(
    s: Seq<Step>,
    x: GpuTensor,
    emb: GpuFreqEmb,
    scale: Factor,
) -> Built<GpuTensor> {
    if x.d0 == 0 || x.d1 == 0 || x.d2 == 0 || x.d3 == 0 {
        Ok((s, x))
    } else if emb.data.len < x.d2 * x.d1 {
        Err(gpu_tensor::too_short())
    } else {
        let l = Launch {
            kernel: Kernel::AddFreqEmb,
            reads: 2,
            x: x.data.id,
            y: emb.data.id,
            z: 0,
            ints: ints4(x.d0, x.d1, x.d2, x.d3),
            factor: scale,
            len: x.data.len,
        };
        launched(s, l, x)
    }
}

/// Adds `scale` times the embedding of the frequency bins to every batch and frame of
/// `[b, c, fr, t]`.
pub fn add_freq_emb_inplace(p: &mut Program, x: GpuTensor, emb: &GpuFreqEmb, scale: Factor) -> (
    r: Result<GpuTensor, DemucsError>
)
    requires
        program::program_ok(old(p)@),
        gpu_tensor::tensor_ok(old(p)@, x),
        x.rank == 4,
        gpu_tensor::buffer_ok(old(p)@, emb.data),
        program::is_number(scale),
    ensures
        good(old(p)@, add_freq_emb_steps(old(p)@, x, *emb, scale), r, final(p)@),
{
    if x.d0 == 0 || x.d1 == 0 || x.d2 == 0 || x.d3 == 0 {
        return Ok(x);
    }
    proof {
        assert(x.d2 * x.d1 <= LIMIT * LIMIT) by (nonlinear_arith)
            requires
                x.d2 <= LIMIT,
                x.d1 <= LIMIT,
        ;
    }
    if (emb.data.len as u64) < x.d2 as u64 * x.d1 as u64 {
        return Err(gpu_tensor::short());
    }
    let l: Launch = Launch {
        kernel: Kernel::AddFreqEmb,
        reads: 2,
        x: x.data.id,
        y: emb.data.id,
        z: 0,
        ints: ints4(x.d0, x.d1, x.d2, x.d3),
        factor: scale,
        len: x.data.len,
    };
    proof {
        reveal(program::launch_ok);
    }
    start(p, l, x)
}

/// Number of elements of a batch.
pub open spec fn rest(x: GpuTensor) -> Option<usize> {
    gpu_tensor::size3(x.d1, x.d2, x.d3)
}

/// The steps of [`norm_freq_inplace`] and [`denorm_freq_inplace`].
pub open spec fn per_batch_steps(
    s: Seq<Step>,
    kernel: Kernel,
    factor: Factor,
    x: GpuTensor,
    mean: GpuTensor,
    std: GpuTensor,
) -> Built<GpuTensor> {
    match rest(x) {
        None => Err(gpu_tensor::too_large()),
        Some(n) => if mean.data.len < x.d0 || std.data.len < x.d0 {
            Err(gpu_tensor::too_short())
        } else {
            launched(
                s,
                launch3(kernel, x.data, mean.data, std.data, ints2(x.d0, n), factor, x.data.len),
                x,
            )
        },
    }
}

/// Applies a mean and a deviation to each batch.
fn per_batch(
    p: &mut Program,
    kernel: Kernel,
    factor: Factor,
    x: GpuTensor,
    mean: GpuTensor,
    std: GpuTensor,
) -> (r: Result<GpuTensor, DemucsError>)
    requires
        program::program_ok(old(p)@),
        gpu_tensor::tensor_ok(old(p)@, x),
        gpu_tensor::tensor_ok(old(p)@, mean),
        gpu_tensor::tensor_ok(old(p)@, std),
        kernel == Kernel::DenormFreq && factor == Factor::Absent || kernel == Kernel::NormFreq
            && program::is_number(factor),
    ensures
        good(old(p)@, per_batch_steps(old(p)@, kernel, factor, x, mean, std), r, final(p)@),
{
    let n: usize = match gpu_tensor::count3(x.d1, x.d2, x.d3) {
        Some(n) => n,
        None => {
            return Err(gpu_tensor::large());
        },
    };
    if mean.data.len < x.d0 || std.data.len < x.d0 {
        return Err(gpu_tensor::short());
    }
    let l: Launch = launch3(
        kernel,
        x.data,
        mean.data,
        std.data,
        ints2(x.d0, n),
        factor,
        x.data.len,
    );
    proof {
        reveal(program::launch_ok);
        assert(x.d0 * (x.d1 * x.d2 * x.d3) == x.d0 * x.d1 * x.d2 * x.d3) by (nonlinear_arith);
        if x.rank == 2 {
            assert(x.d0 * x.d1 * x.d2 * x.d3 == x.d0 * x.d1) by (nonlinear_arith)
                requires
                    x.d2 == 1,
                    x.d3 == 1,
            ;
        }
        if x.rank == 3 {
            assert(x.d0 * x.d1 * x.d2 * x.d3 == x.d0 * x.d1 * x.d2) by (nonlinear_arith)
                requires
                    x.d3 == 1,
            ;
        }
    }
    start(p, l, x)
}

/// Multiplies each batch by its deviation and adds its mean.
pub fn denorm_freq_inplace(p: &mut Program, x: GpuTensor, mean: GpuTensor, std: GpuTensor) -> (r: Result<
    GpuTensor,
    DemucsError,
>)
    requires
        program::program_ok(old(p)@),
        gpu_tensor::tensor_ok(old(p)@, x),
        gpu_tensor::tensor_ok(old(p)@, mean),
        gpu_tensor::tensor_ok(old(p)@, std),
    ensures
        good(
            old(p)@,
            per_batch_steps(old(p)@, Kernel::DenormFreq, Factor::Absent, x, mean, std),
            r,
            final(p)@,
        ),
{
    per_batch(p, Kernel::DenormFreq, Factor::Absent, x, mean, std)
}

/// Subtracts its mean from each batch and divides by its deviation and `eps`.
pub fn norm_freq_inplace(
    p: &mut Program,
    x: GpuTensor,
    mean: GpuTensor,
    std: GpuTensor,
    eps: Factor,
) -> (r: Result<GpuTensor, DemucsError>)
    requires
        program::program_ok(old(p)@),
        gpu_tensor::tensor_ok(old(p)@, x),
        gpu_tensor::tensor_ok(old(p)@, mean),
        gpu_tensor::tensor_ok(old(p)@, std),
        program::is_number(eps),
    ensures
        good(
            old(p)@,
            per_batch_steps(old(p)@, Kernel::NormFreq, eps, x, mean, std),
            r,
            final(p)@,
        ),
{
    per_batch(p, Kernel::NormFreq, eps, x, mean, std)
}

/// The steps of [`softmax_scaled`].
pub open spec fn softmax_steps(s: Seq<Step>, x: GpuTensor, scale: Factor) -> Built<GpuTensor> {
    if x.data.len == 0 {
        Ok((s, x))
    } else {
        launched(
            s,
            launch1(
                Kernel::SoftmaxScaled,
                x.data,
                ints3(x.d0, x.d1, x.d2),
                scale,
                x.data.len,
            ),
            x,
        )
    }
}

/// Softmax over the last axis of `[b, s, n]`, of `scale` times its elements.
pub fn softmax_scaled(p: &mut Program, x: GpuTensor, scale: Factor) -> (r: Result<
    GpuTensor,
    DemucsError,
>)
    requires
        program::program_ok(old(p)@),
        gpu_tensor::tensor_ok(old(p)@, x),
        x.rank == 3,
        program::is_number(scale),
    ensures
        r is Ok,
        good(old(p)@, softmax_steps(old(p)@, x, scale), r, final(p)@),
{
    let n: usize = x.data.len;
    if n == 0 {
        return Ok(x);
    }
    let l: Launch = launch1(
        Kernel::SoftmaxScaled,
        x.data,
        ints3(x.d0, x.d1, x.d2),
        scale,
        n,
    );
    proof {
        reveal(program::launch_ok);
        assert(x.d0 * x.d1 <= n) by (nonlinear_arith)
            requires
                n == x.d0 * x.d1 * x.d2,
                n > 0,
        ;
    }
    start(p, l, x)
}

} // verus!
