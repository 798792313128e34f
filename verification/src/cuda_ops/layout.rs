//! Operators that move data between layouts.
use vstd::prelude::*;
use crate::cuda_ops::elementwise;
use crate::cuda_ops::elementwise::launch1;
use crate::cuda_ops::elementwise::launch2;
use crate::error::DemucsError;
use crate::gpu_tensor;
use crate::gpu_tensor::tensor3;
use crate::gpu_tensor::tensor4;
use crate::gpu_tensor::Built;
use crate::gpu_tensor::GpuTensor;
use crate::program;
use crate::program::ints3;
use crate::program::ints4;
use crate::program::ints5;
use crate::program::Factor;
use crate::program::Kernel;
use crate::program::Launch;
use crate::program::Program;
use crate::program::Step;
use crate::program::LIMIT;
use crate::text;

verus! {

/// The steps of [`swap_dims_12_3d`].
pub open spec fn swap_dims_12_3d_steps(s: Seq<Step>, x: GpuTensor) -> Built<GpuTensor> {
    elementwise::launched(
        s,
        launch1(Kernel::SwapDims123d, x.data, ints3(x.d0, x.d1, x.d2), Factor::Absent, x.data.len),
        tensor3(0, x.data.len, x.d0, x.d2, x.d1),
    )
}

/// Exchanges the last two axes of `[d0, d1, d2]`.
pub fn swap_dims_12_3d(p: &mut Program, x: GpuTensor) -> (r: Result<GpuTensor, DemucsError>)
    requires
        program::program_ok(old(p)@),
        gpu_tensor::tensor_ok(old(p)@, x),
        x.rank == 3,
    ensures
        r is Ok,
        elementwise::good(old(p)@, swap_dims_12_3d_steps(old(p)@, x), r, final(p)@),
{
    let n: usize = x.data.len;
    let l: Launch = launch1(
        Kernel::SwapDims123d,
        x.data,
        ints3(x.d0, x.d1, x.d2),
        Factor::Absent,
        n,
    );
    proof {
        reveal(program::launch_ok);
        assert(x.d0 * x.d1 * x.d2 == x.d0 * x.d2 * x.d1) by (nonlinear_arith);
    }
    elementwise::start(p, l, tensor3(0, n, x.d0, x.d2, x.d1))
}

/// The steps of [`permute_bcft_to_btcf`].
pub open spec fn permute_bcft_to_btcf_steps(s: Seq<Step>, x: GpuTensor) -> Built<GpuTensor> {
    elementwise::launched(
        s,
        launch1(
            Kernel::PermuteBcftToBtcf,
            x.data,
            ints4(x.d0, x.d1, x.d2, x.d3),
            Factor::Absent,
            x.data.len,
        ),
        tensor4(0, x.data.len, x.d0, x.d3, x.d1, x.d2),
    )
}

/// Brings `[b, c, f, t]` into the order `[b, t, c, f]`.
pub fn permute_bcft_to_btcf(p: &mut Program, x: GpuTensor) -> (r: Result<GpuTensor, DemucsError>)
    requires
        program::program_ok(old(p)@),
        gpu_tensor::tensor_ok(old(p)@, x),
        x.rank == 4,
    ensures
        r is Ok,
        elementwise::good(old(p)@, permute_bcft_to_btcf_steps(old(p)@, x), r, final(p)@),
{
    let n: usize = x.data.len;
    let l: Launch = launch1(
        Kernel::PermuteBcftToBtcf,
        x.data,
        ints4(x.d0, x.d1, x.d2, x.d3),
        Factor::Absent,
        n,
    );
    proof {
        reveal(program::launch_ok);
        assert(x.d0 * x.d1 * x.d2 * x.d3 == x.d0 * x.d3 * x.d1 * x.d2) by (nonlinear_arith);
    }
    elementwise::start(p, l, tensor4(0, n, x.d0, x.d3, x.d1, x.d2))
}

/// The steps of [`transpose_bchw_to_bhwc`].
pub open spec fn transpose_bchw_to_bhwc_steps(s: Seq<Step>, x: GpuTensor) -> Built<GpuTensor> {
    elementwise::launched(
        s,
        launch1(
            Kernel::TransposeBchwToBhwc,
            x.data,
            ints4(x.d0, x.d1, x.d2, x.d3),
            Factor::Absent,
            x.data.len,
        ),
        tensor4(0, x.data.len, x.d0, x.d2, x.d3, x.d1),
    )
}

/// Brings `[b, c, h, w]` into the order `[b, h, w, c]`.
pub fn transpose_bchw_to_bhwc(p: &mut Program, x: GpuTensor) -> (r: Result<GpuTensor, DemucsError>)
    requires
        program::program_ok(old(p)@),
        gpu_tensor::tensor_ok(old(p)@, x),
        x.rank == 4,
    ensures
        r is Ok,
        elementwise::good(old(p)@, transpose_bchw_to_bhwc_steps(old(p)@, x), r, final(p)@),
{
    let n: usize = x.data.len;
    let l: Launch = launch1(
        Kernel::TransposeBchwToBhwc,
        x.data,
        ints4(x.d0, x.d1, x.d2, x.d3),
        Factor::Absent,
        n,
    );
    proof {
        reveal(program::launch_ok);
        assert(x.d0 * x.d1 * x.d2 * x.d3 == x.d0 * x.d2 * x.d3 * x.d1) by (nonlinear_arith);
    }
    elementwise::start(p, l, tensor4(0, n, x.d0, x.d2, x.d3, x.d1))
}

/// The steps of [`transpose_bhwc_to_bchw`].
pub open spec fn transpose_bhwc_to_bchw_steps(s: Seq<Step>, x: GpuTensor) -> Built<GpuTensor> {
    elementwise::launched(
        s,
        launch1(
            Kernel::TransposeBhwcToBchw,
            x.data,
            ints4(x.d0, x.d3, x.d1, x.d2),
            Factor::Absent,
            x.data.len,
        ),
        tensor4(0, x.data.len, x.d0, x.d3, x.d1, x.d2),
    )
}

/// Brings `[b, h, w, c]` into the order `[b, c, h, w]`.
pub fn transpose_bhwc_to_bchw(p: &mut Program, x: GpuTensor) -> (r: Result<GpuTensor, DemucsError>)
    requires
        program::program_ok(old(p)@),
        gpu_tensor::tensor_ok(old(p)@, x),
        x.rank == 4,
    ensures
        r is Ok,
        elementwise::good(old(p)@, transpose_bhwc_to_bchw_steps(old(p)@, x), r, final(p)@),
{
    let n: usize = x.data.len;
    let l: Launch = launch1(
        Kernel::TransposeBhwcToBchw,
        x.data,
        ints4(x.d0, x.d3, x.d1, x.d2),
        Factor::Absent,
        n,
    );
    proof {
        reveal(program::launch_ok);
        assert(x.d0 * x.d1 * x.d2 * x.d3 == x.d0 * x.d3 * x.d1 * x.d2) by (nonlinear_arith);
    }
    elementwise::start(p, l, tensor4(0, n, x.d0, x.d3, x.d1, x.d2))
}

/// The steps of [`permute_bhsd_to_bhds`].
pub open spec fn permute_bhsd_to_bhds_steps(s: Seq<Step>, x: GpuTensor) -> Built<GpuTensor> {
    elementwise::launched(
        s,
        launch1(
            Kernel::PermuteBhsdToBhds,
            x.data,
            ints3(x.d0, x.d1, x.d2),
            Factor::Absent,
            x.data.len,
        ),
        tensor3(0, x.data.len, x.d0, x.d2, x.d1),
    )
}

/// Exchanges the last two axes of `[b * h, s, d_head]`.
pub fn permute_bhsd_to_bhds(p: &mut Program, x: GpuTensor) -> (r: Result<GpuTensor, DemucsError>)
    requires
        program::program_ok(old(p)@),
        gpu_tensor::tensor_ok(old(p)@, x),
        x.rank == 3,
    ensures
        r is Ok,
        elementwise::good(old(p)@, permute_bhsd_to_bhds_steps(old(p)@, x), r, final(p)@),
{
    let n: usize = x.data.len;
    let l: Launch = launch1(
        Kernel::PermuteBhsdToBhds,
        x.data,
        ints3(x.d0, x.d1, x.d2),
        Factor::Absent,
        n,
    );
    proof {
        reveal(program::launch_ok);
        assert(x.d0 * x.d1 * x.d2 == x.d0 * x.d2 * x.d1) by (nonlinear_arith);
    }
    elementwise::start(p, l, tensor3(0, n, x.d0, x.d2, x.d1))
}

/// The steps of [`permute_bsd_to_bhsd`].
pub open spec fn permute_bsd_to_bhsd_steps(
    s: Seq<Step>,
    x: GpuTensor,
    h: usize,
    d_head: usize,
) -> Built<
    GpuTensor,
> {
    if gpu_tensor::size2(h, d_head) != Some(x.d2) {
        Err(
            "permute_bsd_to_bhsd: d="@ + text::decimal_text(x.d2 as nat) + " != h="@
                + text::decimal_text(h as nat) + "*d_head="@ + text::decimal_text(d_head as nat),
        )
    } else {
        match gpu_tensor::size2(x.d0, h) {
            None => Err(gpu_tensor::too_large()),
            Some(bh) => elementwise::launched(
                s,
                launch1(
                    Kernel::PermuteBsdToBhsd,
                    x.data,
                    ints5(x.d0, x.d1, x.d2, h, d_head),
                    Factor::Absent,
                    x.data.len,
                ),
                tensor3(0, x.data.len, bh, x.d1, d_head),
            ),
        }
    }
}

/// Brings `[b, s, h * d_head]` into the order `[b * h, s, d_head]`.
pub fn permute_bsd_to_bhsd(p: &mut Program, x: GpuTensor, h: usize, d_head: usize) -> (r: Result<
    GpuTensor,
    DemucsError,
>)
    requires
        program::program_ok(old(p)@),
        gpu_tensor::tensor_ok(old(p)@, x),
        x.rank == 3,
    ensures
        elementwise::good(
            old(p)@,
            permute_bsd_to_bhsd_steps(old(p)@, x, h, d_head),
            r,
            final(p)@,
        ),
{
    let fits: bool = match gpu_tensor::count2(h, d_head) {
        Some(d) => d == x.d2,
        None => false,
    };
    if !fits {
        let m: String = text::more_number("permute_bsd_to_bhsd: d=".to_owned(), x.d2);
        let m: String = text::more_number(text::more(m, " != h="), h);
        let m: String = text::more_number(text::more(m, "*d_head="), d_head);
        return Err(DemucsError::Shape(m));
    }
    let bh: usize = match gpu_tensor::count2(x.d0, h) {
        Some(n) => n,
        None => {
            return Err(gpu_tensor::large());
        },
    };
    let n: usize = x.data.len;
    let l: Launch = launch1(
        Kernel::PermuteBsdToBhsd,
        x.data,
        ints5(x.d0, x.d1, x.d2, h, d_head),
        Factor::Absent,
        n,
    );
    proof {
        reveal(program::launch_ok);
        assert((x.d0 * h) * x.d1 * d_head == x.d0 * x.d1 * (h * d_head)) by (nonlinear_arith);
    }
    elementwise::start(p, l, tensor3(0, n, bh, x.d1, d_head))
}

/// The steps of [`permute_bhsd_to_bsd`].
pub open spec fn permute_bhsd_to_bsd_steps(
    s: Seq<Step>,
    x: GpuTensor,
    b: usize,
) -> Built<GpuTensor> {
    if b == 0 || x.d0 % b != 0 {
        Err(
            "permute_bhsd_to_bsd: bh="@ + text::decimal_text(x.d0 as nat) + " not divisible by b="@
                + text::decimal_text(b as nat),
        )
    } else {
        match gpu_tensor::size2(x.d0 / b, x.d2) {
            None => Err(gpu_tensor::too_large()),
            Some(d) => elementwise::launched(
                s,
                launch1(
                    Kernel::PermuteBhsdToBsd,
                    x.data,
                    ints4(b, x.d1, x.d0 / b, x.d2),
                    Factor::Absent,
                    x.data.len,
                ),
                tensor3(0, x.data.len, b, x.d1, d),
            ),
        }
    }
}

/// Brings `[b * h, s, d_head]` into the order `[b, s, h * d_head]`.
pub fn permute_bhsd_to_bsd(p: &mut Program, x: GpuTensor, b: usize) -> (r: Result<
    GpuTensor,
    DemucsError,
>)
    requires
        program::program_ok(old(p)@),
        gpu_tensor::tensor_ok(old(p)@, x),
        x.rank == 3,
        b <= LIMIT,
    ensures
        elementwise::good(old(p)@, permute_bhsd_to_bsd_steps(old(p)@, x, b), r, final(p)@),
{
    if b == 0 || x.d0 % b != 0 {
        let m: String = text::more_number("permute_bhsd_to_bsd: bh=".to_owned(), x.d0);
        let m: String = text::more_number(text::more(m, " not divisible by b="), b);
        return Err(DemucsError::Shape(m));
    }
    let h: usize = x.d0 / b;
    let d: usize = match gpu_tensor::count2(h, x.d2) {
        Some(n) => n,
        None => {
            return Err(gpu_tensor::large());
        },
    };
    let n: usize = x.data.len;
    let l: Launch = launch1(
        Kernel::PermuteBhsdToBsd,
        x.data,
        ints4(b, x.d1, h, x.d2),
        Factor::Absent,
        n,
    );
    proof {
        reveal(program::launch_ok);
        assert(x.d0 == b * h) by (nonlinear_arith)
            requires
                b > 0,
                h == x.d0 / b,
                x.d0 % b == 0,
        ;
        assert((b * h) * x.d1 * x.d2 == b * x.d1 * h * x.d2) by (nonlinear_arith);
        assert(b * x.d1 * h * x.d2 == b * x.d1 * (h * x.d2)) by (nonlinear_arith);
    }
    elementwise::start(p, l, tensor3(0, n, b, x.d1, d))
}

/// The steps of [`reshape_bcft_to_bfct`].
pub open spec fn reshape_bcft_to_bfct_steps(s: Seq<Step>, x: GpuTensor) -> Built<GpuTensor> {
    match gpu_tensor::size2(x.d0, x.d2) {
        None => Err(gpu_tensor::too_large()),
        Some(bf) => elementwise::launched(
            s,
            launch1(
                Kernel::ReshapeBcftToBfct,
                x.data,
                ints4(x.d0, x.d1, x.d2, x.d3),
                Factor::Absent,
                x.data.len,
            ),
            tensor3(0, x.data.len, bf, x.d1, x.d3),
        ),
    }
}

/// Brings `[b, c, f, t]` into the order `[b * f, c, t]`.
pub fn reshape_bcft_to_bfct(p: &mut Program, x: GpuTensor) -> (r: Result<GpuTensor, DemucsError>)
    requires
        program::program_ok(old(p)@),
        gpu_tensor::tensor_ok(old(p)@, x),
        x.rank == 4,
    ensures
        elementwise::good(old(p)@, reshape_bcft_to_bfct_steps(old(p)@, x), r, final(p)@),
{
    let bf: usize = match gpu_tensor::count2(x.d0, x.d2) {
        Some(n) => n,
        None => {
            return Err(gpu_tensor::large());
        },
    };
    let n: usize = x.data.len;
    let l: Launch = launch1(
        Kernel::ReshapeBcftToBfct,
        x.data,
        ints4(x.d0, x.d1, x.d2, x.d3),
        Factor::Absent,
        n,
    );
    proof {
        reveal(program::launch_ok);
        assert((x.d0 * x.d2) * x.d1 * x.d3 == x.d0 * x.d1 * x.d2 * x.d3) by (nonlinear_arith);
    }
    elementwise::start(p, l, tensor3(0, n, bf, x.d1, x.d3))
}

/// The steps of [`reshape_bfct_to_bcft`].
pub open spec fn reshape_bfct_to_bcft_steps(
    s: Seq<Step>,
    x: GpuTensor,
    b: usize,
) -> Built<GpuTensor> {
    if b == 0 {
        Err("reshape_bfct_to_bcft: no batches"@)
    } else {
        match gpu_tensor::size4(b, x.d1, x.d0 / b, x.d2) {
            None => Err(gpu_tensor::too_large()),
            Some(n) => elementwise::launched(
                s,
                launch1(
                    Kernel::ReshapeBfctToBcft,
                    x.data,
                    ints4(b, x.d1, x.d0 / b, x.d2),
                    Factor::Absent,
                    n,
                ),
                tensor4(0, n, b, x.d1, x.d0 / b, x.d2),
            ),
        }
    }
}

/// Brings `[b * f, c, t]` into the order `[b, c, f, t]`.
pub fn reshape_bfct_to_bcft(p: &mut Program, x: GpuTensor, b: usize) -> (r: Result<
    GpuTensor,
    DemucsError,
>)
    requires
        program::program_ok(old(p)@),
        gpu_tensor::tensor_ok(old(p)@, x),
        x.rank == 3,
    ensures
        elementwise::good(old(p)@, reshape_bfct_to_bcft_steps(old(p)@, x, b), r, final(p)@),
{
    if b == 0 {
        return Err(DemucsError::Shape("reshape_bfct_to_bcft: no batches".to_owned()));
    }
    let fr: usize = x.d0 / b;
    let n: usize = match gpu_tensor::count4(b, x.d1, fr, x.d2) {
        Some(n) => n,
        None => {
            return Err(gpu_tensor::large());
        },
    };
    let l: Launch = launch1(
        Kernel::ReshapeBfctToBcft,
        x.data,
        ints4(b, x.d1, fr, x.d2),
        Factor::Absent,
        n,
    );
    proof {
        reveal(program::launch_ok);
        assert(b * fr <= x.d0) by (nonlinear_arith)
            requires
                b > 0,
                fr == x.d0 / b,
        ;
        assert(b * x.d1 * fr * x.d2 <= x.d0 * x.d1 * x.d2) by {
            assert(b * x.d1 * fr * x.d2 == (b * fr) * (x.d1 * x.d2)) by (nonlinear_arith);
            assert(x.d0 * x.d1 * x.d2 == x.d0 * (x.d1 * x.d2)) by (nonlinear_arith);
            assert((b * fr) * (x.d1 * x.d2) <= x.d0 * (x.d1 * x.d2)) by (nonlinear_arith)
                requires
                    b * fr <= x.d0,
            ;
        }
    }
    elementwise::start(p, l, tensor4(0, n, b, x.d1, fr, x.d2))
}

/// The steps of [`flatten_bcft_to_btfc`].
pub open spec fn flatten_bcft_to_btfc_steps(s: Seq<Step>, x: GpuTensor) -> Built<GpuTensor> {
    match gpu_tensor::size2(x.d3, x.d2) {
        None => Err(gpu_tensor::too_large()),
        Some(tf) => elementwise::launched(
            s,
            launch1(
                Kernel::FlattenBcftToBtfc,
                x.data,
                ints4(x.d0, x.d1, x.d2, x.d3),
                Factor::Absent,
                x.data.len,
            ),
            tensor3(0, x.data.len, x.d0, tf, x.d1),
        ),
    }
}

/// Brings `[b, c, f, t]` into the order `[b, t * f, c]`.
pub fn flatten_bcft_to_btfc(p: &mut Program, x: GpuTensor) -> (r: Result<GpuTensor, DemucsError>)
    requires
        program::program_ok(old(p)@),
        gpu_tensor::tensor_ok(old(p)@, x),
        x.rank == 4,
    ensures
        elementwise::good(old(p)@, flatten_bcft_to_btfc_steps(old(p)@, x), r, final(p)@),
{
    let tf: usize = match gpu_tensor::count2(x.d3, x.d2) {
        Some(n) => n,
        None => {
            return Err(gpu_tensor::large());
        },
    };
    let n: usize = x.data.len;
    let l: Launch = launch1(
        Kernel::FlattenBcftToBtfc,
        x.data,
        ints4(x.d0, x.d1, x.d2, x.d3),
        Factor::Absent,
        n,
    );
    proof {
        reveal(program::launch_ok);
        assert(x.d0 * (x.d3 * x.d2) * x.d1 == x.d0 * x.d1 * x.d2 * x.d3) by (nonlinear_arith);
    }
    elementwise::start(p, l, tensor3(0, n, x.d0, tf, x.d1))
}

/// The steps of [`unflatten_btfc_to_bcft`].
pub open spec fn unflatten_btfc_to_bcft_steps(
    s: Seq<Step>,
    x: GpuTensor,
    f: usize,
    t: usize,
) -> Built<
    GpuTensor,
> {
    match gpu_tensor::size4(x.d0, x.d2, f, t) {
        None => Err(gpu_tensor::too_large()),
        Some(n) => if x.data.len < n {
            Err(gpu_tensor::too_short())
        } else {
            elementwise::launched(
                s,
                launch1(
                    Kernel::UnflattenBtfcToBcft,
                    x.data,
                    ints4(x.d0, x.d2, f, t),
                    Factor::Absent,
                    n,
                ),
                tensor4(0, n, x.d0, x.d2, f, t),
            )
        },
    }
}

/// Brings `[b, t * f, c]` into the order `[b, c, f, t]`.
pub fn unflatten_btfc_to_bcft(p: &mut Program, x: GpuTensor, f: usize, t: usize) -> (r: Result<
    GpuTensor,
    DemucsError,
>)
    requires
        program::program_ok(old(p)@),
        gpu_tensor::tensor_ok(old(p)@, x),
        x.rank == 3,
    ensures
        elementwise::good(old(p)@, unflatten_btfc_to_bcft_steps(old(p)@, x, f, t), r, final(p)@),
{
    let n: usize = match gpu_tensor::count4(x.d0, x.d2, f, t) {
        Some(n) => n,
        None => {
            return Err(gpu_tensor::large());
        },
    };
    if x.data.len < n {
        return Err(gpu_tensor::short());
    }
    let l: Launch = launch1(
        Kernel::UnflattenBtfcToBcft,
        x.data,
        ints4(x.d0, x.d2, f, t),
        Factor::Absent,
        n,
    );
    proof {
        reveal(program::launch_ok);
    }
    elementwise::start(p, l, tensor4(0, n, x.d0, x.d2, f, t))
}

/// The steps of [`trim_h2`].
pub open spec fn trim_h2_steps(s: Seq<Step>, x: GpuTensor, fr_target: usize) -> Built<GpuTensor> {
    if fr_target > x.d2 {
        Err(
            "trim_h2: fr_target="@ + text::decimal_text(fr_target as nat) + " > fr="@
                + text::decimal_text(x.d2 as nat),
        )
    } else {
        match gpu_tensor::size4(x.d0, x.d1, fr_target, x.d3) {
            None => Err(gpu_tensor::too_large()),
            Some(n) => elementwise::launched(
                s,
                launch1(
                    Kernel::TrimH2,
                    x.data,
                    ints5(x.d0, x.d1, x.d2, fr_target, x.d3),
                    Factor::Absent,
                    n,
                ),
                tensor4(0, n, x.d0, x.d1, fr_target, x.d3),
            ),
        }
    }
}

/// Keeps the first `fr_target` rows of each plane of `[b, c, fr, w]`.
pub fn trim_h2(
    p: &mut Program,
    x: GpuTensor,
    fr_target: usize,
) -> (r: Result<GpuTensor, DemucsError>)
    requires
        program::program_ok(old(p)@),
        gpu_tensor::tensor_ok(old(p)@, x),
        x.rank == 4,
    ensures
        elementwise::good(old(p)@, trim_h2_steps(old(p)@, x, fr_target), r, final(p)@),
{
    if fr_target > x.d2 {
        let m: String = text::more_number("trim_h2: fr_target=".to_owned(), fr_target);
        let m: String = text::more_number(text::more(m, " > fr="), x.d2);
        return Err(DemucsError::Shape(m));
    }
    let n: usize = match gpu_tensor::count4(x.d0, x.d1, fr_target, x.d3) {
        Some(n) => n,
        None => {
            return Err(gpu_tensor::large());
        },
    };
    let l: Launch = launch1(
        Kernel::TrimH2,
        x.data,
        ints5(x.d0, x.d1, x.d2, fr_target, x.d3),
        Factor::Absent,
        n,
    );
    proof {
        reveal(program::launch_ok);
    }
    elementwise::start(p, l, tensor4(0, n, x.d0, x.d1, fr_target, x.d3))
}

/// The steps of [`trim_l`].
pub open spec fn trim_l_steps(s: Seq<Step>, x: GpuTensor, l_target: usize) -> Built<GpuTensor> {
    if l_target > x.d2 {
        Err(
            "trim_l: l_target="@ + text::decimal_text(l_target as nat) + " > l="@
                + text::decimal_text(x.d2 as nat),
        )
    } else {
        match gpu_tensor::size3(x.d0, x.d1, l_target) {
            None => Err(gpu_tensor::too_large()),
            Some(n) => elementwise::launched(
                s,
                launch1(
                    Kernel::TrimL,
                    x.data,
                    ints4(x.d0, x.d1, x.d2, l_target),
                    Factor::Absent,
                    n,
                ),
                tensor3(0, n, x.d0, x.d1, l_target),
            ),
        }
    }
}

/// Keeps the first `l_target` positions of each row of `[b, c, l]`.
pub fn trim_l(p: &mut Program, x: GpuTensor, l_target: usize) -> (r: Result<GpuTensor, DemucsError>)
    requires
        program::program_ok(old(p)@),
        gpu_tensor::tensor_ok(old(p)@, x),
        x.rank == 3,
    ensures
        elementwise::good(old(p)@, trim_l_steps(old(p)@, x, l_target), r, final(p)@),
{
    if l_target > x.d2 {
        let m: String = text::more_number("trim_l: l_target=".to_owned(), l_target);
        let m: String = text::more_number(text::more(m, " > l="), x.d2);
        return Err(DemucsError::Shape(m));
    }
    let n: usize = match gpu_tensor::count3(x.d0, x.d1, l_target) {
        Some(n) => n,
        None => {
            return Err(gpu_tensor::large());
        },
    };
    let l: Launch = launch1(
        Kernel::TrimL,
        x.data,
        ints4(x.d0, x.d1, x.d2, l_target),
        Factor::Absent,
        n,
    );
    proof {
        reveal(program::launch_ok);
    }
    elementwise::start(p, l, tensor3(0, n, x.d0, x.d1, l_target))
}

/// The steps of [`pad_l`].
pub open spec fn pad_l_steps(s: Seq<Step>, x: GpuTensor, pad: usize) -> Built<GpuTensor> {
    if pad == 0 {
        Ok((s, x))
    } else if pad > LIMIT {
        Err(gpu_tensor::too_large())
    } else {
        match gpu_tensor::size3(x.d0, x.d1, (x.d2 + pad) as usize) {
            None => Err(gpu_tensor::too_large()),
            Some(n) => elementwise::launched(
                s,
                launch1(
                    Kernel::ZeroPadRight,
                    x.data,
                    ints5(x.d0, x.d1, x.d2, (x.d2 + pad) as usize, pad),
                    Factor::Absent,
                    n,
                ),
                tensor3(0, n, x.d0, x.d1, (x.d2 + pad) as usize),
            ),
        }
    }
}

/// Fills up each row of `[b, c, l]` with `pad` zeros.
pub fn pad_l(p: &mut Program, x: GpuTensor, pad: usize) -> (r: Result<GpuTensor, DemucsError>)
    requires
        program::program_ok(old(p)@),
        gpu_tensor::tensor_ok(old(p)@, x),
        x.rank == 3,
    ensures
        elementwise::good(old(p)@, pad_l_steps(old(p)@, x, pad), r, final(p)@),
{
    if pad == 0 {
        return Ok(x);
    }
    if pad > LIMIT {
        return Err(gpu_tensor::large());
    }
    let t: usize = x.d2 + pad;
    let n: usize = match gpu_tensor::count3(x.d0, x.d1, t) {
        Some(n) => n,
        None => {
            return Err(gpu_tensor::large());
        },
    };
    let l: Launch = launch1(
        Kernel::ZeroPadRight,
        x.data,
        ints5(x.d0, x.d1, x.d2, t, pad),
        Factor::Absent,
        n,
    );
    proof {
        reveal(program::launch_ok);
    }
    elementwise::start(p, l, tensor3(0, n, x.d0, x.d1, t))
}

/// The steps of [`copy_per_head`].
pub open spec fn copy_per_head_steps(
    s: Seq<Step>,
    out: GpuTensor,
    x: GpuTensor,
    bh: usize,
    rows: usize,
    d_head: usize,
) -> Built<GpuTensor> {
    match gpu_tensor::size2(rows, d_head) {
        None => Err(gpu_tensor::too_large()),
        Some(n) => if n == 0 {
            Ok((s, out))
        } else if bh > LIMIT {
            Err(gpu_tensor::too_large())
        } else if out.data.len < n || x.data.len < (bh + 1) * n {
            Err(gpu_tensor::too_short())
        } else {
            elementwise::launched(
                s,
                launch2(
                    Kernel::CopyPerHead,
                    out.data,
                    x.data,
                    ints3(bh, rows, d_head),
                    out.data.len,
                ),
                out,
            )
        },
    }
}

/// Writes the plane `bh` of `[.., s, d_head]` in `x` over the start of `out`.
pub fn copy_per_head(
    p: &mut Program,
    out: GpuTensor,
    x: GpuTensor,
    bh: usize,
    s: usize,
    d_head: usize,
) -> (r: Result<GpuTensor, DemucsError>)
    requires
        program::program_ok(old(p)@),
        gpu_tensor::tensor_ok(old(p)@, out),
        gpu_tensor::tensor_ok(old(p)@, x),
    ensures
        elementwise::good(
            old(p)@,
            copy_per_head_steps(old(p)@, out, x, bh, s, d_head),
            r,
            final(p)@,
        ),
{
    let n: usize = match gpu_tensor::count2(s, d_head) {
        Some(n) => n,
        None => {
            return Err(gpu_tensor::large());
        },
    };
    if n == 0 {
        return Ok(out);
    }
    if bh > LIMIT {
        return Err(gpu_tensor::large());
    }
    proof {
        assert((bh + 1) * n <= (LIMIT + 1) * LIMIT) by (nonlinear_arith)
            requires
                bh <= LIMIT,
                n <= LIMIT,
        ;
    }
    if out.data.len < n || (x.data.len as u64) < (bh as u64 + 1) * n as u64 {
        return Err(gpu_tensor::short());
    }
    let l: Launch = launch2(
        Kernel::CopyPerHead,
        out.data,
        x.data,
        ints3(bh, s, d_head),
        out.data.len,
    );
    proof {
        reveal(program::launch_ok);
    }
    elementwise::start(p, l, out)
}

/// The steps of [`scatter_per_head`].
pub open spec fn scatter_per_head_steps(
    s: Seq<Step>,
    out: GpuTensor,
    x: GpuTensor,
    bh: usize,
    rows: usize,
    d_head: usize,
) -> Built<GpuTensor> {
    match gpu_tensor::size2(rows, d_head) {
        None => Err(gpu_tensor::too_large()),
        Some(n) => if n == 0 {
            Ok((s, out))
        } else if bh > LIMIT {
            Err(gpu_tensor::too_large())
        } else if x.data.len < n || out.data.len < (bh + 1) * n {
            Err(gpu_tensor::too_short())
        } else {
            elementwise::launched(
                s,
                launch2(
                    Kernel::ScatterPerHead,
                    out.data,
                    x.data,
                    ints3(bh, rows, d_head),
                    out.data.len,
                ),
                out,
            )
        },
    }
}

/// Writes `x`, of `[s, d_head]`, over the plane `bh` of `[.., s, d_head]` in `out`.
pub fn scatter_per_head(
    p: &mut Program,
    out: GpuTensor,
    x: GpuTensor,
    bh: usize,
    s: usize,
    d_head: usize,
) -> (r: Result<GpuTensor, DemucsError>)
    requires
        program::program_ok(old(p)@),
        gpu_tensor::tensor_ok(old(p)@, out),
        gpu_tensor::tensor_ok(old(p)@, x),
    ensures
        elementwise::good(
            old(p)@,
            scatter_per_head_steps(old(p)@, out, x, bh, s, d_head),
            r,
            final(p)@,
        ),
{
    let n: usize = match gpu_tensor::count2(s, d_head) {
        Some(n) => n,
        None => {
            return Err(gpu_tensor::large());
        },
    };
    if n == 0 {
        return Ok(out);
    }
    if bh > LIMIT {
        return Err(gpu_tensor::large());
    }
    proof {
        assert((bh + 1) * n <= (LIMIT + 1) * LIMIT) by (nonlinear_arith)
            requires
                bh <= LIMIT,
                n <= LIMIT,
        ;
    }
    if x.data.len < n || (out.data.len as u64) < (bh as u64 + 1) * n as u64 {
        return Err(gpu_tensor::short());
    }
    let l: Launch = launch2(
        Kernel::ScatterPerHead,
        out.data,
        x.data,
        ints3(bh, s, d_head),
        out.data.len,
    );
    proof {
        reveal(program::launch_ok);
    }
    elementwise::start(p, l, out)
}

} // verus!
