//! From the parameters of the network to those on the graphics device.
//!
//! Every weight goes to the device once, as one array; what is built here are the arrays, in
//! the order in which they go, and the handles to them.
use vstd::prelude::*;
use vstd::slice::slice_subrange;
use crate::error::DemucsError;
use crate::gpu_model;
use crate::gpu_model::GpuBias;
use crate::gpu_model::GpuConv1dWeight;
use crate::gpu_model::GpuConv2dWeight;
use crate::gpu_model::GpuConvTranspose1dWeight;
use crate::gpu_model::GpuConvTranspose2dWeight;
use crate::gpu_model::GpuCrossAttnLayer;
use crate::gpu_model::GpuCrossDomainTransformer;
use crate::gpu_model::GpuDConv;
use crate::gpu_model::GpuDConvLayer;
use crate::gpu_model::GpuFreqEmb;
use crate::gpu_model::GpuGroupNorm1;
use crate::gpu_model::GpuHDecLayer;
use crate::gpu_model::GpuHEncLayer;
use crate::gpu_model::GpuHTDemucs;
use crate::gpu_model::GpuLayerNorm1;
use crate::gpu_model::GpuLayerScale;
use crate::gpu_model::GpuMhaWeights;
use crate::gpu_model::GpuSelfAttnLayer;
use crate::gpu_model::GpuTDecLayer;
use crate::gpu_model::GpuTEncLayer;
use crate::gpu_model::GpuTransformerLayerWeights;
use crate::gpu_model::GpuWeight2D;
use crate::gpu_tensor;
use crate::gpu_tensor::GpuBuffer;
use crate::index;
use crate::loading;
use crate::model::Bias;
use crate::model::Conv1dWeight;
use crate::model::Conv2dWeight;
use crate::model::CrossAttnLayer;
use crate::model::CrossDomainTransformer;
use crate::model::DConv;
use crate::model::DConvLayer;
use crate::model::FreqEmb;
use crate::model::GroupNorm1;
use crate::model::HDecLayer;
use crate::model::HEncLayer;
use crate::model::HTDemucs;
use crate::model::LayerNorm1;
use crate::model::LayerScale;
use crate::model::MhaWeights;
use crate::model::SelfAttnLayer;
use crate::model::TDecLayer;
use crate::model::TEncLayer;
use crate::model::TransformerLayerWeights;
use crate::model::Weight2D;
use crate::ops_cpu::layout;
use crate::program;
use crate::program::Program;
use crate::program::Step;

verus! {

/// The arrays that go to the device.
pub struct Uploads<T> {
    pub arrays: Vec<Vec<T>>,
}

impl<T> View for Uploads<T> {
    type V = Seq<Seq<T>>;

    open spec fn view(&self) -> Seq<Seq<T>> {
        Seq::new(self.arrays@.len(), |i: int| self.arrays@[i]@)
    }
}

/// The steps that bring the arrays to the device.
pub open spec fn upload_steps<T>(u: Seq<Seq<T>>) -> Seq<Step> {
    Seq::new(u.len(), |i: int| Step::Upload { slot: i as usize, len: u[i].len() as usize })
}

/// The arrays from `base` on are `a`.
#[verifier::opaque]
pub open spec fn window<T>(u: Seq<Seq<T>>, base: int, a: Seq<Seq<T>>) -> bool {
    &&& 0 <= base
    &&& base + a.len() <= u.len() <= usize::MAX
    &&& forall|k: int| 0 <= k < a.len() ==> #[trigger] a[k] == u[base + k]
}

/// Two parts one after the other.
pub(crate) proof fn lemma_parts<T>(u: Seq<Seq<T>>, base: int, a: Seq<Seq<T>>, b: Seq<Seq<T>>)
    requires
        window(u, base, a + b),
    ensures
        window(u, base, a),
        window(u, base + a.len(), b),
{
    reveal(window);
    assert forall|k: int| 0 <= k < a.len() implies #[trigger] a[k] == u[base + k] by {
        assert((a + b)[k] == a[k]);
    }
    assert forall|k: int| 0 <= k < b.len() implies #[trigger] b[k] == u[base + a.len() + k] by {
        assert((a + b)[a.len() + k] == b[k]);
    }
}

/// The handle to an array.
proof fn lemma_array<T>(u: Seq<Seq<T>>, base: int, a: Seq<Seq<T>>, k: int)
    requires
        window(u, base, a),
        0 <= k < a.len(),
    ensures
        gpu_tensor::buffer_ok(upload_steps(u), buffer_at(base + k, a[k].len() as int)),
{
    reveal(window);
    assert(a[k] == u[base + k]);
}

impl<T: Copy> Uploads<T> {
    /// Nothing to bring to the device yet.
    pub fn new() -> (r: Uploads<T>)
        ensures
            r@ == Seq::<Seq<T>>::empty(),
    {
        let r = Uploads { arrays: Vec::new() };
        assert(r@ =~= Seq::<Seq<T>>::empty());
        r
    }

    /// Adds an array.
    pub fn take(&mut self, data: Vec<T>) -> (r: GpuBuffer)
        ensures
            final(self)@ == old(self)@.push(data@),
            r.id == old(self)@.len(),
            r.len == data@.len(),
    {
        let id: usize = self.arrays.len();
        let len: usize = data.len();
        let ghost before = self@;
        self.arrays.push(data);
        assert(self@ =~= before.push(data@));
        GpuBuffer { id, len }
    }

    /// Adds a copy of an array.
    pub fn copy(&mut self, data: &Vec<T>) -> (r: GpuBuffer)
        ensures
            final(self)@ == old(self)@.push(data@),
            r.id == old(self)@.len(),
            r.len == data@.len(),
    {
        self.take(layout::to_vec(data))
    }

    /// The program that brings the arrays to the device.
    pub fn program(&self) -> (r: Program)
        ensures
            r@ == upload_steps(self@),
            program::program_ok(r@),
    {
        let n: usize = self.arrays.len();
        let mut steps: Vec<Step> = Vec::new();
        let mut i: usize = 0;
        while i < n
            invariant
                i <= n,
                n == self.arrays@.len(),
                steps@.len() == i,
                forall|j: int| 0 <= j < i ==> #[trigger] steps@[j] == upload_steps(self@)[j],
            decreases n - i,
        {
            let len: usize = self.arrays[i].len();
            steps.push(Step::Upload { slot: i, len });
            i = i + 1;
        }
        let r = Program { steps };
        proof {
            assert(r@ =~= upload_steps(self@));
            reveal(program::program_ok);
        }
        r
    }
}

/// The matrix `[m, n]` transposed: `[n, m]`.
pub open spec fn transposed<T>(x: Seq<T>, m: int, n: int) -> Seq<T> {
    Seq::new((n * m) as nat, |p: int| x[index::pos2(p % m, p / m, n)])
}

/// The element in row `j` and column `i` of the transposed matrix is that in row `i` and column
/// `j`.
pub proof fn transposed_element<T>(x: Seq<T>, m: int, n: int, i: int, j: int)
    requires
        0 <= i < m,
        0 <= j < n,
    ensures
        transposed(x, m, n)[index::pos2(j, i, m)] == x[index::pos2(i, j, n)],
{
    index::lemma_pair(j, i, n, m);
}

/// Transposing twice gives the matrix back.
pub proof fn transposed_twice<T>(x: Seq<T>, m: int, n: int)
    requires
        0 <= m,
        0 <= n,
        x.len() == m * n,
    ensures
        transposed(transposed(x, m, n), n, m) == x,
{
    let t = transposed(x, m, n);
    assert(m * n == n * m) by (nonlinear_arith);
    assert forall|p: int| 0 <= p < x.len() implies transposed(t, n, m)[p] == x[p] by {
        index::lemma_unpair(p, m, n);
        transposed_element(x, m, n, p / n, p % n);
    }
    assert(transposed(t, n, m) =~= x);
}

/// Transposes a matrix.
fn transpose<T: Copy>(x: &[T], m: usize, n: usize) -> (r: Vec<T>)
    requires
        m * n <= x@.len(),
    ensures
        r@ == transposed(x@, m as int, n as int),
        r@.len() == n * m,
{
    let len: usize = x.len();
    proof {
        assert(m * n == n * m) by (nonlinear_arith);
        index::lemma_extent(m as int, n as int);
    }
    let total: usize = m * n;
    let mut out: Vec<T> = Vec::new();
    let mut p: usize = 0;
    while p < total
        invariant
            p <= total,
            total == m * n,
            total == n * m,
            total <= x@.len(),
            out@.len() == p,
            forall|q: int|
                0 <= q < p ==> #[trigger] out@[q] == transposed(x@, m as int, n as int)[q],
        decreases total - p,
    {
        proof {
            index::lemma_unpair(p as int, n as int, m as int);
            index::lemma_pair((p % m) as int, (p / m) as int, m as int, n as int);
            index::lemma_within2((p % m) as int, (p / m) as int, n as int);
        }
        let at: usize = (p % m) * n + p / m;
        out.push(x[at]);
        p = p + 1;
    }
    assert(out@ =~= transposed(x@, m as int, n as int));
    out
}

/// The text of the error for a weight that has fewer elements than its shape.
pub open spec fn scant_text() -> Seq<char> {
    "a weight has fewer elements than its shape"@
}

/// The error for a weight that has fewer elements than its shape.
fn scant() -> (r: DemucsError)
    ensures
        r is Shape,
        r->Shape_0@ == scant_text(),
{
    DemucsError::Shape("a weight has fewer elements than its shape".to_owned())
}

/// The error unless `ok`.
pub open spec fn unless(ok: bool) -> Option<Seq<char>> {
    if ok {
        None
    } else {
        Some(scant_text())
    }
}

/// The product of two sizes, where it fits.
pub open spec fn product(a: usize, b: usize) -> Option<usize> {
    if a * b <= usize::MAX {
        Some((a * b) as usize)
    } else {
        None
    }
}

/// Size of a patch of a 2D kernel.
pub open spec fn patch2d(in_ch: usize, kh: usize, kw: usize) -> Option<usize> {
    match product(in_ch, kh) {
        Some(n) => product(n, kw),
        None => None,
    }
}

/// A matrix of the size is in an array of `len` elements.
pub open spec fn fits(rows: usize, cols: Option<usize>, len: int) -> bool {
    cols matches Some(cols) && rows * cols <= len
}

/// Checks [`fits`].
fn check_fits(rows: usize, cols: usize, len: usize) -> (r: bool)
    ensures
        r == fits(rows, Some(cols), len as int),
{
    match rows.checked_mul(cols) {
        Some(n) => n <= len,
        None => false,
    }
}

/// The buffer `base` of `len` elements.
pub open spec fn buffer_at(base: int, len: int) -> GpuBuffer {
    GpuBuffer { id: base as usize, len: len as usize }
}

/// The handles to the matrix of a linear layer are good.
proof fn lemma_weight2d_ok<T>(l: Weight2D<T>, u: Seq<Seq<T>>, base: int)
    requires
        window(u, base, weight2d_arrays(l)),
    ensures
        gpu_tensor::buffer_ok(upload_steps(u), weight2d_at(l, base).data),
{
    lemma_array(u, base, weight2d_arrays(l), 0);
}

/// The error in bringing the matrix of a linear layer to the device.
pub open spec fn weight2d_error<T>(l: Weight2D<T>) -> Option<Seq<char>> {
    unless(fits(l.rows, Some(l.cols), l.data@.len() as int))
}

/// The arrays of the matrix of a linear layer.
pub open spec fn weight2d_arrays<T>(l: Weight2D<T>) -> Seq<Seq<T>> {
    seq![transposed(l.data@, l.rows as int, l.cols as int)]
}

/// The handles to the matrix of a linear layer, the first array being `base`.
pub open spec fn weight2d_at<T>(l: Weight2D<T>, base: int) -> GpuWeight2D {
    GpuWeight2D { data: buffer_at(base, l.cols * l.rows), rows: l.cols, cols: l.rows }
}

impl GpuWeight2D {
    /// Brings the matrix of a linear layer to the device.
    pub fn from_cpu<T: Copy>(
        up: &mut Uploads<T>,
        l: &Weight2D<T>,
    ) -> (r: Result<GpuWeight2D, DemucsError>)
        ensures
            match weight2d_error(*l) {
                Some(t) => gpu_tensor::refused(r, t),
                None => {
                    &&& r == Ok::<GpuWeight2D, DemucsError>(weight2d_at(*l, old(up)@.len() as int))
                    &&& final(up)@ == old(up)@ + weight2d_arrays(*l)
                },
            },
    {
        if !check_fits(l.rows, l.cols, l.data.len()) {
            return Err(scant());
        }
        let ghost before = up@;
        let t: Vec<T> = transpose(&l.data, l.rows, l.cols);
        let data: GpuBuffer = up.take(t);
        assert(up@ =~= before + weight2d_arrays(*l));
        Ok(GpuWeight2D { data, rows: l.cols, cols: l.rows })
    }
}

/// The handles to the kernel of a 2D convolution are good.
proof fn lemma_conv2d_ok<T>(l: Conv2dWeight<T>, u: Seq<Seq<T>>, base: int)
    requires
        window(u, base, conv2d_arrays(l)),
    ensures
        gpu_tensor::buffer_ok(upload_steps(u), conv2d_at(l, base).data),
{
    lemma_array(u, base, conv2d_arrays(l), 0);
}

/// The error in bringing the kernel of a 2D convolution to the device.
pub open spec fn conv2d_error<T>(l: Conv2dWeight<T>) -> Option<Seq<char>> {
    unless(fits(l.out_ch, patch2d(l.in_ch, l.kh, l.kw), l.data@.len() as int))
}

/// The arrays of the kernel of a 2D convolution.
pub open spec fn conv2d_arrays<T>(l: Conv2dWeight<T>) -> Seq<Seq<T>> {
    seq![transposed(l.data@, l.out_ch as int, l.in_ch * l.kh * l.kw)]
}

/// The handles to the kernel of a 2D convolution, the first array being `base`.
pub open spec fn conv2d_at<T>(l: Conv2dWeight<T>, base: int) -> GpuConv2dWeight {
    GpuConv2dWeight {
        data: buffer_at(base, (l.in_ch * l.kh * l.kw) * l.out_ch),
        out_ch: l.out_ch,
        in_ch: l.in_ch,
        kh: l.kh,
        kw: l.kw,
    }
}

impl GpuConv2dWeight {
    /// Brings the kernel of a 2D convolution to the device.
    pub fn from_cpu<T: Copy>(
        up: &mut Uploads<T>,
        l: &Conv2dWeight<T>,
    ) -> (r: Result<GpuConv2dWeight, DemucsError>)
        ensures
            match conv2d_error(*l) {
                Some(t) => gpu_tensor::refused(r, t),
                None => {
                    &&& r == Ok::<GpuConv2dWeight, DemucsError>(
                        conv2d_at(*l, old(up)@.len() as int)
                    )
                    &&& final(up)@ == old(up)@ + conv2d_arrays(*l)
                },
            },
    {
        let patch: usize = match l.in_ch.checked_mul(l.kh) {
            Some(n) => match n.checked_mul(l.kw) {
                Some(n) => n,
                None => {
                    return Err(scant());
                },
            },
            None => {
                return Err(scant());
            },
        };
        if !check_fits(l.out_ch, patch, l.data.len()) {
            return Err(scant());
        }
        let ghost before = up@;
        let t: Vec<T> = transpose(&l.data, l.out_ch, patch);
        let data: GpuBuffer = up.take(t);
        assert(up@ =~= before + conv2d_arrays(*l));
        Ok(GpuConv2dWeight { data, out_ch: l.out_ch, in_ch: l.in_ch, kh: l.kh, kw: l.kw })
    }
}

/// The handles to the kernel of a 1D convolution are good.
proof fn lemma_conv1d_ok<T>(l: Conv1dWeight<T>, u: Seq<Seq<T>>, base: int)
    requires
        window(u, base, conv1d_arrays(l)),
    ensures
        gpu_tensor::buffer_ok(upload_steps(u), conv1d_at(l, base).data),
{
    lemma_array(u, base, conv1d_arrays(l), 0);
}

/// The error in bringing the kernel of a 1D convolution to the device.
pub open spec fn conv1d_error<T>(l: Conv1dWeight<T>) -> Option<Seq<char>> {
    unless(fits(l.out_ch, product(l.in_ch, l.k), l.data@.len() as int))
}

/// The arrays of the kernel of a 1D convolution.
pub open spec fn conv1d_arrays<T>(l: Conv1dWeight<T>) -> Seq<Seq<T>> {
    seq![transposed(l.data@, l.out_ch as int, l.in_ch * l.k)]
}

/// The handles to the kernel of a 1D convolution, the first array being `base`.
pub open spec fn conv1d_at<T>(l: Conv1dWeight<T>, base: int) -> GpuConv1dWeight {
    GpuConv1dWeight {
        data: buffer_at(base, (l.in_ch * l.k) * l.out_ch),
        out_ch: l.out_ch,
        in_ch: l.in_ch,
        k: l.k,
    }
}

impl GpuConv1dWeight {
    /// Brings the kernel of a 1D convolution to the device.
    pub fn from_cpu<T: Copy>(
        up: &mut Uploads<T>,
        l: &Conv1dWeight<T>,
    ) -> (r: Result<GpuConv1dWeight, DemucsError>)
        ensures
            match conv1d_error(*l) {
                Some(t) => gpu_tensor::refused(r, t),
                None => {
                    &&& r == Ok::<GpuConv1dWeight, DemucsError>(
                        conv1d_at(*l, old(up)@.len() as int)
                    )
                    &&& final(up)@ == old(up)@ + conv1d_arrays(*l)
                },
            },
    {
        let patch: usize = match l.in_ch.checked_mul(l.k) {
            Some(n) => n,
            None => {
                return Err(scant());
            },
        };
        if !check_fits(l.out_ch, patch, l.data.len()) {
            return Err(scant());
        }
        let ghost before = up@;
        let t: Vec<T> = transpose(&l.data, l.out_ch, patch);
        let data: GpuBuffer = up.take(t);
        assert(up@ =~= before + conv1d_arrays(*l));
        Ok(GpuConv1dWeight { data, out_ch: l.out_ch, in_ch: l.in_ch, k: l.k })
    }
}

/// The handles to the kernel of a transposed 2D convolution are good.
proof fn lemma_conv_tr2d_ok<T>(l: Conv2dWeight<T>, u: Seq<Seq<T>>, base: int)
    requires
        window(u, base, conv_tr2d_arrays(l)),
    ensures
        gpu_tensor::buffer_ok(upload_steps(u), conv_tr2d_at(l, base).data),
{
    lemma_array(u, base, conv_tr2d_arrays(l), 0);
}

/// The arrays of the kernel of a transposed 2D convolution.
pub open spec fn conv_tr2d_arrays<T>(l: Conv2dWeight<T>) -> Seq<Seq<T>> {
    seq![l.data@]
}

/// The handles to the kernel of a transposed 2D convolution, the first array being `base`.
pub open spec fn conv_tr2d_at<T>(l: Conv2dWeight<T>, base: int) -> GpuConvTranspose2dWeight {
    GpuConvTranspose2dWeight {
        data: buffer_at(base, l.data@.len() as int),
        out_ch: l.out_ch,
        in_ch: l.in_ch,
        kh: l.kh,
        kw: l.kw,
    }
}

impl GpuConvTranspose2dWeight {
    /// Brings the kernel of a transposed 2D convolution to the device.
    pub fn from_cpu<T: Copy>(up: &mut Uploads<T>, l: &Conv2dWeight<T>) -> (
        r: Result<GpuConvTranspose2dWeight, DemucsError>
    )
        ensures
            r == Ok::<GpuConvTranspose2dWeight, DemucsError>(
                conv_tr2d_at(*l, old(up)@.len() as int)
            ),
            final(up)@ == old(up)@ + conv_tr2d_arrays(*l),
    {
        let ghost before = up@;
        let data: GpuBuffer = up.copy(&l.data);
        assert(up@ =~= before + conv_tr2d_arrays(*l));
        Ok(GpuConvTranspose2dWeight { data, out_ch: l.out_ch, in_ch: l.in_ch, kh: l.kh, kw: l.kw })
    }
}

/// The handles to the kernel of a transposed 1D convolution are good.
proof fn lemma_conv_tr1d_ok<T>(l: Conv1dWeight<T>, u: Seq<Seq<T>>, base: int)
    requires
        window(u, base, conv_tr1d_arrays(l)),
    ensures
        gpu_tensor::buffer_ok(upload_steps(u), conv_tr1d_at(l, base).data),
{
    lemma_array(u, base, conv_tr1d_arrays(l), 0);
}

/// The arrays of the kernel of a transposed 1D convolution.
pub open spec fn conv_tr1d_arrays<T>(l: Conv1dWeight<T>) -> Seq<Seq<T>> {
    seq![l.data@]
}

/// The handles to the kernel of a transposed 1D convolution, the first array being `base`.
pub open spec fn conv_tr1d_at<T>(l: Conv1dWeight<T>, base: int) -> GpuConvTranspose1dWeight {
    GpuConvTranspose1dWeight {
        data: buffer_at(base, l.data@.len() as int),
        out_ch: l.out_ch,
        in_ch: l.in_ch,
        k: l.k,
    }
}

impl GpuConvTranspose1dWeight {
    /// Brings the kernel of a transposed 1D convolution to the device.
    pub fn from_cpu<T: Copy>(up: &mut Uploads<T>, l: &Conv1dWeight<T>) -> (
        r: Result<GpuConvTranspose1dWeight, DemucsError>
    )
        ensures
            r == Ok::<GpuConvTranspose1dWeight, DemucsError>(
                conv_tr1d_at(*l, old(up)@.len() as int)
            ),
            final(up)@ == old(up)@ + conv_tr1d_arrays(*l),
    {
        let ghost before = up@;
        let data: GpuBuffer = up.copy(&l.data);
        assert(up@ =~= before + conv_tr1d_arrays(*l));
        Ok(GpuConvTranspose1dWeight { data, out_ch: l.out_ch, in_ch: l.in_ch, k: l.k })
    }
}

/// The handles to a bias are good.
proof fn lemma_bias_ok<T>(l: Bias<T>, u: Seq<Seq<T>>, base: int)
    requires
        window(u, base, bias_arrays(l)),
    ensures
        gpu_tensor::buffer_ok(upload_steps(u), bias_at(l, base).data),
{
    lemma_array(u, base, bias_arrays(l), 0);
}

/// The arrays of a bias.
pub open spec fn bias_arrays<T>(l: Bias<T>) -> Seq<Seq<T>> {
    seq![l.data@]
}

/// The handles to a bias, the first array being `base`.
pub open spec fn bias_at<T>(l: Bias<T>, base: int) -> GpuBias {
    GpuBias { data: buffer_at(base, l.data@.len() as int), len: l.len }
}

impl GpuBias {
    /// Brings a bias to the device.
    pub fn from_cpu<T: Copy>(up: &mut Uploads<T>, l: &Bias<T>) -> (r: Result<GpuBias, DemucsError>)
        ensures
            r == Ok::<GpuBias, DemucsError>(bias_at(*l, old(up)@.len() as int)),
            final(up)@ == old(up)@ + bias_arrays(*l),
    {
        let ghost before = up@;
        let data: GpuBuffer = up.copy(&l.data);
        assert(up@ =~= before + bias_arrays(*l));
        Ok(GpuBias { data, len: l.len })
    }
}

/// The handles to a layer normalization are good.
proof fn lemma_layer_norm_ok<T>(l: LayerNorm1<T>, u: Seq<Seq<T>>, base: int)
    requires
        window(u, base, layer_norm_arrays(l)),
    ensures
        gpu_model::layer_norm_ok(upload_steps(u), layer_norm_at(l, base)),
{
    lemma_array(u, base, layer_norm_arrays(l), 0);
    lemma_array(u, base, layer_norm_arrays(l), 1);
}

/// The arrays of a layer normalization.
pub open spec fn layer_norm_arrays<T>(l: LayerNorm1<T>) -> Seq<Seq<T>> {
    seq![l.gamma@, l.beta@]
}

/// The handles to a layer normalization, the first array being `base`.
pub open spec fn layer_norm_at<T>(l: LayerNorm1<T>, base: int) -> GpuLayerNorm1 {
    GpuLayerNorm1 {
        gamma: buffer_at(base, l.gamma@.len() as int),
        beta: buffer_at(base + 1, l.beta@.len() as int),
        dim: l.dim,
    }
}

impl GpuLayerNorm1 {
    /// Brings a layer normalization to the device.
    pub fn from_cpu<T: Copy>(
        up: &mut Uploads<T>,
        l: &LayerNorm1<T>,
    ) -> (r: Result<GpuLayerNorm1, DemucsError>)
        ensures
            r == Ok::<GpuLayerNorm1, DemucsError>(
                layer_norm_at(*l, old(up)@.len() as int)
            ),
            final(up)@ == old(up)@ + layer_norm_arrays(*l),
    {
        let ghost before = up@;
        let gamma: GpuBuffer = up.copy(&l.gamma);
        let beta: GpuBuffer = up.copy(&l.beta);
        assert(up@ =~= before + layer_norm_arrays(*l));
        Ok(GpuLayerNorm1 { gamma, beta, dim: l.dim })
    }
}

/// The handles to a group normalization are good.
proof fn lemma_group_norm_ok<T>(l: GroupNorm1<T>, u: Seq<Seq<T>>, base: int)
    requires
        window(u, base, group_norm_arrays(l)),
    ensures
        gpu_model::group_norm_ok(upload_steps(u), group_norm_at(l, base)),
{
    lemma_array(u, base, group_norm_arrays(l), 0);
    lemma_array(u, base, group_norm_arrays(l), 1);
}

/// The arrays of a group normalization.
pub open spec fn group_norm_arrays<T>(l: GroupNorm1<T>) -> Seq<Seq<T>> {
    seq![l.gamma@, l.beta@]
}

/// The handles to a group normalization, the first array being `base`.
pub open spec fn group_norm_at<T>(l: GroupNorm1<T>, base: int) -> GpuGroupNorm1 {
    GpuGroupNorm1 {
        gamma: buffer_at(base, l.gamma@.len() as int),
        beta: buffer_at(base + 1, l.beta@.len() as int),
        num_channels: l.num_channels,
    }
}

impl GpuGroupNorm1 {
    /// Brings a group normalization to the device.
    pub fn from_cpu<T: Copy>(
        up: &mut Uploads<T>,
        l: &GroupNorm1<T>,
    ) -> (r: Result<GpuGroupNorm1, DemucsError>)
        ensures
            r == Ok::<GpuGroupNorm1, DemucsError>(
                group_norm_at(*l, old(up)@.len() as int)
            ),
            final(up)@ == old(up)@ + group_norm_arrays(*l),
    {
        let ghost before = up@;
        let gamma: GpuBuffer = up.copy(&l.gamma);
        let beta: GpuBuffer = up.copy(&l.beta);
        assert(up@ =~= before + group_norm_arrays(*l));
        Ok(GpuGroupNorm1 { gamma, beta, num_channels: l.num_channels })
    }
}

/// The handles to a scale are good.
proof fn lemma_scale_ok<T>(l: LayerScale<T>, u: Seq<Seq<T>>, base: int)
    requires
        window(u, base, scale_arrays(l)),
    ensures
        gpu_tensor::buffer_ok(upload_steps(u), scale_at(l, base).scale),
{
    lemma_array(u, base, scale_arrays(l), 0);
}

/// The arrays of a scale.
pub open spec fn scale_arrays<T>(l: LayerScale<T>) -> Seq<Seq<T>> {
    seq![l.scale@]
}

/// The handles to a scale, the first array being `base`.
pub open spec fn scale_at<T>(l: LayerScale<T>, base: int) -> GpuLayerScale {
    GpuLayerScale { scale: buffer_at(base, l.scale@.len() as int) }
}

impl GpuLayerScale {
    /// Brings a scale to the device.
    pub fn from_cpu<T: Copy>(
        up: &mut Uploads<T>,
        l: &LayerScale<T>,
    ) -> (r: Result<GpuLayerScale, DemucsError>)
        ensures
            r == Ok::<GpuLayerScale, DemucsError>(scale_at(*l, old(up)@.len() as int)),
            final(up)@ == old(up)@ + scale_arrays(*l),
    {
        let ghost before = up@;
        let scale: GpuBuffer = up.copy(&l.scale);
        assert(up@ =~= before + scale_arrays(*l));
        Ok(GpuLayerScale { scale })
    }
}

/// The handles to the embedding of the frequency bins are good.
proof fn lemma_emb_ok<T>(l: FreqEmb<T>, u: Seq<Seq<T>>, base: int)
    requires
        window(u, base, emb_arrays(l)),
    ensures
        gpu_tensor::buffer_ok(upload_steps(u), emb_at(l, base).data),
{
    lemma_array(u, base, emb_arrays(l), 0);
}

/// The arrays of the embedding of the frequency bins.
pub open spec fn emb_arrays<T>(l: FreqEmb<T>) -> Seq<Seq<T>> {
    seq![l.data@]
}

/// The handles to the embedding of the frequency bins, the first array being `base`.
pub open spec fn emb_at<T>(l: FreqEmb<T>, base: int) -> GpuFreqEmb {
    GpuFreqEmb { data: buffer_at(base, l.data@.len() as int), n_bins: l.n_bins, dim: l.dim }
}

impl GpuFreqEmb {
    /// Brings the embedding of the frequency bins to the device.
    pub fn from_cpu<T: Copy>(
        up: &mut Uploads<T>,
        l: &FreqEmb<T>,
    ) -> (r: Result<GpuFreqEmb, DemucsError>)
        ensures
            r == Ok::<GpuFreqEmb, DemucsError>(emb_at(*l, old(up)@.len() as int)),
            final(up)@ == old(up)@ + emb_arrays(*l),
    {
        let ghost before = up@;
        let data: GpuBuffer = up.copy(&l.data);
        assert(up@ =~= before + emb_arrays(*l));
        Ok(GpuFreqEmb { data, n_bins: l.n_bins, dim: l.dim })
    }
}

/// The handle to a bias vector in the array `base`.
pub open spec fn vector_at<T>(v: Seq<T>, base: int) -> GpuBias {
    GpuBias { data: buffer_at(base, v.len() as int), len: v.len() as usize }
}

impl GpuBias {
    /// Brings a bias vector to the device.
    pub fn from_vector<T: Copy>(up: &mut Uploads<T>, v: &[T]) -> (r: GpuBias)
        ensures
            r == vector_at(v@, old(up)@.len() as int),
            final(up)@ == old(up)@.push(v@),
    {
        let data: GpuBuffer = up.take(layout::to_vec(v));
        GpuBias { data, len: v.len() }
    }
}

/// The packed projections have the rows and biases of queries, keys and values, and the output
/// projection is complete.
pub open spec fn mha_fits<T>(m: MhaWeights<T>) -> bool {
    let d = m.d_model as int;
    &&& 3 * d <= usize::MAX
    &&& (3 * d) * d <= m.in_proj_weight@.len()
    &&& 3 * d <= m.in_proj_bias@.len()
    &&& d * d <= m.out_proj_weight@.len()
}

/// The error in bringing the weights of attention to the device.
pub open spec fn mha_error<T>(m: MhaWeights<T>) -> Option<Seq<char>> {
    unless(mha_fits(m))
}

/// Part `j` of the packed projections: rows for the queries, the keys or the values.
pub open spec fn projection<T>(m: MhaWeights<T>, j: int) -> Seq<T> {
    let d = m.d_model as int;
    m.in_proj_weight@.subrange(j * (d * d), (j + 1) * (d * d))
}

/// Part `j` of the packed biases.
pub open spec fn projection_bias<T>(m: MhaWeights<T>, j: int) -> Seq<T> {
    let d = m.d_model as int;
    m.in_proj_bias@.subrange(j * d, (j + 1) * d)
}

/// The arrays of the weights of attention.
#[verifier::opaque]
pub open spec fn mha_arrays<T>(m: MhaWeights<T>) -> Seq<Seq<T>> {
    let d = m.d_model as int;
    seq![
        transposed(projection(m, 0), d, d),
        transposed(projection(m, 1), d, d),
        transposed(projection(m, 2), d, d),
        projection_bias(m, 0),
        projection_bias(m, 1),
        projection_bias(m, 2),
        transposed(m.out_proj_weight@, d, d),
        m.out_proj_bias@,
    ]
}

/// There are 8 of them.
pub(crate) proof fn lemma_mha_arrays<T>(m: MhaWeights<T>)
    ensures
        mha_arrays(m).len() == 8,
{
    reveal(mha_arrays);
}

/// The handle to a square matrix in the array `base`.
pub open spec fn square_at(d: usize, base: int) -> GpuWeight2D {
    GpuWeight2D { data: buffer_at(base, d * d), rows: d, cols: d }
}

/// The handles to the weights of attention, the first array being `base`.
#[verifier::opaque]
pub open spec fn mha_at<T>(m: MhaWeights<T>, base: int) -> GpuMhaWeights {
    let d = m.d_model;
    GpuMhaWeights {
        q_w: square_at(d, base),
        k_w: square_at(d, base + 1),
        v_w: square_at(d, base + 2),
        q_b: GpuBias { data: buffer_at(base + 3, d as int), len: d },
        k_b: GpuBias { data: buffer_at(base + 4, d as int), len: d },
        v_b: GpuBias { data: buffer_at(base + 5, d as int), len: d },
        out_proj_w: square_at(d, base + 6),
        out_proj_b: vector_at(m.out_proj_bias@, base + 7),
        d_model: d,
        n_heads: m.n_heads,
    }
}

/// The handles to the weights of attention are good.
proof fn lemma_mha_ok<T>(m: MhaWeights<T>, u: Seq<Seq<T>>, base: int)
    requires
        window(u, base, mha_arrays(m)),
        mha_fits(m),
    ensures
        gpu_model::mha_ok(upload_steps(u), mha_at(m, base)),
{
    reveal(mha_arrays);
    reveal(mha_at);
    assert((3 * m.d_model) * m.d_model == 3 * (m.d_model * m.d_model)) by (nonlinear_arith);
    index::lemma_extent(m.d_model as int, m.d_model as int);
    lemma_array(u, base, mha_arrays(m), 0);
    lemma_array(u, base, mha_arrays(m), 1);
    lemma_array(u, base, mha_arrays(m), 2);
    lemma_array(u, base, mha_arrays(m), 3);
    lemma_array(u, base, mha_arrays(m), 4);
    lemma_array(u, base, mha_arrays(m), 5);
    lemma_array(u, base, mha_arrays(m), 6);
    lemma_array(u, base, mha_arrays(m), 7);
}

/// Brings a square matrix to the device.
fn square<T: Copy>(up: &mut Uploads<T>, x: &[T], d: usize) -> (r: GpuWeight2D)
    requires
        d * d <= x@.len(),
    ensures
        r == square_at(d, old(up)@.len() as int),
        final(up)@ == old(up)@.push(transposed(x@, d as int, d as int)),
{
    let t: Vec<T> = transpose(x, d, d);
    let data: GpuBuffer = up.take(t);
    GpuWeight2D { data, rows: d, cols: d }
}

impl GpuMhaWeights {
    /// Brings the weights of attention to the device, the packed projections taken apart.
    pub fn from_cpu<T: Copy>(up: &mut Uploads<T>, m: &MhaWeights<T>) -> (r: Result<
        GpuMhaWeights,
        DemucsError,
    >)
        ensures
            match mha_error(*m) {
                Some(t) => gpu_tensor::refused(r, t),
                None => {
                    &&& r == Ok::<GpuMhaWeights, DemucsError>(mha_at(*m, old(up)@.len() as int))
                    &&& final(up)@ == old(up)@ + mha_arrays(*m)
                },
            },
    {
        let d: usize = m.d_model;
        let bias_len: usize = match d.checked_mul(3) {
            Some(n) => n,
            None => {
                return Err(scant());
            },
        };
        if !check_fits(bias_len, d, m.in_proj_weight.len()) || bias_len > m.in_proj_bias.len()
            || !check_fits(d, d, m.out_proj_weight.len()) {
            return Err(scant());
        }
        let ghost before = up@;
        let n: usize = d * d;
        proof {
            assert((3 * d) * d == 3 * (d * d)) by (nonlinear_arith);
        }
        let w: &Vec<T> = &m.in_proj_weight;
        let b: &Vec<T> = &m.in_proj_bias;
        let q_w: GpuWeight2D = square(up, slice_subrange(w, 0, n), d);
        let k_w: GpuWeight2D = square(up, slice_subrange(w, n, 2 * n), d);
        let v_w: GpuWeight2D = square(up, slice_subrange(w, 2 * n, 3 * n), d);
        let q_b: GpuBias = GpuBias::from_vector(up, slice_subrange(b, 0, d));
        let k_b: GpuBias = GpuBias::from_vector(up, slice_subrange(b, d, 2 * d));
        let v_b: GpuBias = GpuBias::from_vector(up, slice_subrange(b, 2 * d, 3 * d));
        let out_proj_w: GpuWeight2D = square(up, &m.out_proj_weight, d);
        let out_proj_b: GpuBias = GpuBias::from_vector(up, &m.out_proj_bias);
        proof {
            reveal(mha_arrays);
            reveal(mha_at);
        }
        assert(up@ =~= before + mha_arrays(*m));
        Ok(
            GpuMhaWeights {
                q_w,
                k_w,
                v_w,
                q_b,
                k_b,
                v_b,
                out_proj_w,
                out_proj_b,
                d_model: m.d_model,
                n_heads: m.n_heads,
            },
        )
    }
}

/// The part of a transformer layer after the attention.
pub struct Tail<'a, T> {
    pub norm: &'a LayerNorm1<T>,
    pub linear1: &'a Weight2D<T>,
    pub linear1_bias: &'a Vec<T>,
    pub linear2: &'a Weight2D<T>,
    pub linear2_bias: &'a Vec<T>,
    pub gamma: &'a LayerScale<T>,
    pub norm_out: &'a GroupNorm1<T>,
}

/// The same on the device.
#[derive(Clone, Copy, Debug, PartialEq, Eq, Structural)]
pub struct GpuTail {
    pub norm: GpuLayerNorm1,
    pub linear1: GpuWeight2D,
    pub linear1_bias: GpuBias,
    pub linear2: GpuWeight2D,
    pub linear2_bias: GpuBias,
    pub gamma: GpuLayerScale,
    pub norm_out: GpuGroupNorm1,
}

/// The program makes all of them.
pub open spec fn tail_ok(s: Seq<Step>, t: GpuTail) -> bool {
    &&& gpu_model::layer_norm_ok(s, t.norm)
    &&& gpu_tensor::buffer_ok(s, t.linear1.data)
    &&& gpu_tensor::buffer_ok(s, t.linear1_bias.data)
    &&& gpu_tensor::buffer_ok(s, t.linear2.data)
    &&& gpu_tensor::buffer_ok(s, t.linear2_bias.data)
    &&& gpu_tensor::buffer_ok(s, t.gamma.scale)
    &&& gpu_model::group_norm_ok(s, t.norm_out)
}

/// The handles to the part of a transformer layer after the attention are good.
proof fn lemma_tail_ok<'a, T>(l: Tail<'a, T>, u: Seq<Seq<T>>, base: int)
    requires
        window(u, base, tail_arrays(l)),
        tail_error(l) is None,
    ensures
        tail_ok(upload_steps(u), tail_at(l, base)),
{
    reveal(tail_arrays);
    reveal(tail_at);
    lemma_parts(
        u,
        base,
        layer_norm_arrays(*l.norm) + weight2d_arrays(*l.linear1) + seq![l.linear1_bias@]
            + weight2d_arrays(*l.linear2) + seq![l.linear2_bias@] + scale_arrays(*l.gamma),
        group_norm_arrays(*l.norm_out),
    );
    lemma_parts(
        u,
        base,
        layer_norm_arrays(*l.norm) + weight2d_arrays(*l.linear1) + seq![l.linear1_bias@]
            + weight2d_arrays(*l.linear2) + seq![l.linear2_bias@],
        scale_arrays(*l.gamma),
    );
    lemma_parts(
        u,
        base,
        layer_norm_arrays(*l.norm) + weight2d_arrays(*l.linear1) + seq![l.linear1_bias@]
            + weight2d_arrays(*l.linear2),
        seq![l.linear2_bias@],
    );
    lemma_parts(
        u,
        base,
        layer_norm_arrays(*l.norm) + weight2d_arrays(*l.linear1) + seq![l.linear1_bias@],
        weight2d_arrays(*l.linear2),
    );
    lemma_parts(
        u,
        base,
        layer_norm_arrays(*l.norm) + weight2d_arrays(*l.linear1),
        seq![l.linear1_bias@],
    );
    lemma_parts(u, base, layer_norm_arrays(*l.norm), weight2d_arrays(*l.linear1));
    lemma_layer_norm_ok(*l.norm, u, base + 0);
    lemma_weight2d_ok(*l.linear1, u, base + 2);
    lemma_array(u, base + 3, seq![l.linear1_bias@], 0);
    lemma_weight2d_ok(*l.linear2, u, base + 4);
    lemma_array(u, base + 5, seq![l.linear2_bias@], 0);
    lemma_scale_ok(*l.gamma, u, base + 6);
    lemma_group_norm_ok(*l.norm_out, u, base + 7);
}

/// The error in bringing the part of a transformer layer after the attention to the device.
pub open spec fn tail_error<'a, T>(l: Tail<'a, T>) -> Option<Seq<char>> {
    loading::or(weight2d_error(*l.linear1), weight2d_error(*l.linear2))
}

/// The arrays of the part of a transformer layer after the attention.
#[verifier::opaque]
pub open spec fn tail_arrays<'a, T>(l: Tail<'a, T>) -> Seq<Seq<T>> {
    layer_norm_arrays(*l.norm) + weight2d_arrays(*l.linear1) + seq![l.linear1_bias@]
        + weight2d_arrays(*l.linear2) + seq![l.linear2_bias@] + scale_arrays(*l.gamma)
        + group_norm_arrays(*l.norm_out)
}

/// The handles to the part of a transformer layer after the attention, the first array being `base`.
#[verifier::opaque]
pub open spec fn tail_at<'a, T>(l: Tail<'a, T>, base: int) -> GpuTail {
    GpuTail {
        norm: layer_norm_at(*l.norm, base + 0),
        linear1: weight2d_at(*l.linear1, base + 2),
        linear1_bias: vector_at(l.linear1_bias@, base + 3),
        linear2: weight2d_at(*l.linear2, base + 4),
        linear2_bias: vector_at(l.linear2_bias@, base + 5),
        gamma: scale_at(*l.gamma, base + 6),
        norm_out: group_norm_at(*l.norm_out, base + 7),
    }
}

impl GpuTail {
    /// Brings the part of a transformer layer after the attention to the device.
    pub fn from_cpu<'a, T: Copy>(
        up: &mut Uploads<T>,
        l: &Tail<'a, T>,
    ) -> (r: Result<GpuTail, DemucsError>)
        ensures
            match tail_error(*l) {
                Some(t) => gpu_tensor::refused(r, t),
                None => {
                    &&& r == Ok::<GpuTail, DemucsError>(tail_at(*l, old(up)@.len() as int))
                    &&& final(up)@ == old(up)@ + tail_arrays(*l)
                },
            },
    {
        let ghost before = up@;
        proof {
            reveal(tail_arrays);
            reveal(tail_at);
        }
        let norm: GpuLayerNorm1 = GpuLayerNorm1::from_cpu(up, l.norm)?;
        let linear1: GpuWeight2D = GpuWeight2D::from_cpu(up, l.linear1)?;
        let linear1_bias: GpuBias = GpuBias::from_vector(up, l.linear1_bias);
        let linear2: GpuWeight2D = GpuWeight2D::from_cpu(up, l.linear2)?;
        let linear2_bias: GpuBias = GpuBias::from_vector(up, l.linear2_bias);
        let gamma: GpuLayerScale = GpuLayerScale::from_cpu(up, l.gamma)?;
        let norm_out: GpuGroupNorm1 = GpuGroupNorm1::from_cpu(up, l.norm_out)?;
        assert(up@ =~= before + tail_arrays(*l));
        Ok(GpuTail { norm, linear1, linear1_bias, linear2, linear2_bias, gamma, norm_out })
    }
}

/// The handles to a layer of self-attention are good.
proof fn lemma_self_attn_ok<T>(l: SelfAttnLayer<T>, u: Seq<Seq<T>>, base: int)
    requires
        window(u, base, self_attn_arrays(l)),
        self_attn_error(l) is None,
    ensures
        gpu_model::self_attn_ok(upload_steps(u), self_attn_at(l, base)),
{
    reveal(self_attn_arrays);
    reveal(self_attn_at);
    lemma_parts(
        u,
        base,
        layer_norm_arrays(l.norm1) + mha_arrays(l.attn) + scale_arrays(l.gamma_1),
        tail_arrays(self_attn_tail(l)),
    );
    lemma_parts(u, base, layer_norm_arrays(l.norm1) + mha_arrays(l.attn), scale_arrays(l.gamma_1));
    lemma_parts(u, base, layer_norm_arrays(l.norm1), mha_arrays(l.attn));
    lemma_layer_norm_ok(l.norm1, u, base + 0);
    lemma_mha_arrays(l.attn);
    lemma_mha_ok(l.attn, u, base + 2);
    lemma_scale_ok(l.gamma_1, u, base + 10);
    lemma_tail_ok(self_attn_tail(l), u, base + 11);
}

/// The part of the layer after the attention.
pub open spec fn self_attn_tail<'a, T>(l: SelfAttnLayer<T>) -> Tail<'a, T> {
    Tail {
        norm: &l.norm2,
        linear1: &l.linear1,
        linear1_bias: &l.linear1_bias,
        linear2: &l.linear2,
        linear2_bias: &l.linear2_bias,
        gamma: &l.gamma_2,
        norm_out: &l.norm_out,
    }
}

/// The error in bringing a layer of self-attention to the device.
pub open spec fn self_attn_error<T>(l: SelfAttnLayer<T>) -> Option<Seq<char>> {
    loading::or(mha_error(l.attn), tail_error(self_attn_tail(l)))
}

/// The arrays of a layer of self-attention.
#[verifier::opaque]
pub open spec fn self_attn_arrays<T>(l: SelfAttnLayer<T>) -> Seq<Seq<T>> {
    layer_norm_arrays(l.norm1) + mha_arrays(l.attn) + scale_arrays(l.gamma_1)
        + tail_arrays(self_attn_tail(l))
}

/// The handles to a layer of self-attention, the first array being `base`.
#[verifier::opaque]
pub open spec fn self_attn_at<T>(l: SelfAttnLayer<T>, base: int) -> GpuSelfAttnLayer {
    let tail = tail_at(self_attn_tail(l), base + 11);
    GpuSelfAttnLayer {
        norm1: layer_norm_at(l.norm1, base + 0),
        attn: mha_at(l.attn, base + 2),
        gamma_1: scale_at(l.gamma_1, base + 10),
        norm2: tail.norm,
        linear1: tail.linear1,
        linear1_bias: tail.linear1_bias,
        linear2: tail.linear2,
        linear2_bias: tail.linear2_bias,
        gamma_2: tail.gamma,
        norm_out: tail.norm_out,
    }
}

impl GpuSelfAttnLayer {
    /// Brings a layer of self-attention to the device.
    pub fn from_cpu<T: Copy>(
        up: &mut Uploads<T>,
        l: &SelfAttnLayer<T>,
    ) -> (r: Result<GpuSelfAttnLayer, DemucsError>)
        ensures
            match self_attn_error(*l) {
                Some(t) => gpu_tensor::refused(r, t),
                None => {
                    &&& r == Ok::<GpuSelfAttnLayer, DemucsError>(
                        self_attn_at(*l, old(up)@.len() as int)
                    )
                    &&& final(up)@ == old(up)@ + self_attn_arrays(*l)
                },
            },
    {
        let ghost before = up@;
        proof {
            reveal(self_attn_arrays);
            reveal(self_attn_at);
            lemma_mha_arrays(l.attn);
        }
        let norm1: GpuLayerNorm1 = GpuLayerNorm1::from_cpu(up, &l.norm1)?;
        let attn: GpuMhaWeights = GpuMhaWeights::from_cpu(up, &l.attn)?;
        let gamma_1: GpuLayerScale = GpuLayerScale::from_cpu(up, &l.gamma_1)?;
        let tail = GpuTail::from_cpu(
            up,
            &Tail {
                norm: &l.norm2,
                linear1: &l.linear1,
                linear1_bias: &l.linear1_bias,
                linear2: &l.linear2,
                linear2_bias: &l.linear2_bias,
                gamma: &l.gamma_2,
                norm_out: &l.norm_out,
            },
        )?;
        assert(up@ =~= before + self_attn_arrays(*l));
        Ok(
            GpuSelfAttnLayer {
                norm1,
                attn,
                gamma_1,
                norm2: tail.norm,
                linear1: tail.linear1,
                linear1_bias: tail.linear1_bias,
                linear2: tail.linear2,
                linear2_bias: tail.linear2_bias,
                gamma_2: tail.gamma,
                norm_out: tail.norm_out,
            },
        )
    }
}

/// The handles to a layer of cross-attention are good.
proof fn lemma_cross_attn_ok<T>(l: CrossAttnLayer<T>, u: Seq<Seq<T>>, base: int)
    requires
        window(u, base, cross_attn_arrays(l)),
        cross_attn_error(l) is None,
    ensures
        gpu_model::cross_attn_ok(upload_steps(u), cross_attn_at(l, base)),
{
    reveal(cross_attn_arrays);
    reveal(cross_attn_at);
    lemma_parts(
        u,
        base,
        layer_norm_arrays(l.norm1) + layer_norm_arrays(l.norm2) + mha_arrays(l.attn)
            + scale_arrays(l.gamma_1),
        tail_arrays(cross_attn_tail(l)),
    );
    lemma_parts(
        u,
        base,
        layer_norm_arrays(l.norm1) + layer_norm_arrays(l.norm2) + mha_arrays(l.attn),
        scale_arrays(l.gamma_1),
    );
    lemma_parts(
        u,
        base,
        layer_norm_arrays(l.norm1) + layer_norm_arrays(l.norm2),
        mha_arrays(l.attn),
    );
    lemma_parts(u, base, layer_norm_arrays(l.norm1), layer_norm_arrays(l.norm2));
    lemma_layer_norm_ok(l.norm1, u, base + 0);
    lemma_layer_norm_ok(l.norm2, u, base + 2);
    lemma_mha_arrays(l.attn);
    lemma_mha_ok(l.attn, u, base + 4);
    lemma_scale_ok(l.gamma_1, u, base + 12);
    lemma_tail_ok(cross_attn_tail(l), u, base + 13);
}

/// The part of the layer after the attention.
pub open spec fn cross_attn_tail<'a, T>(l: CrossAttnLayer<T>) -> Tail<'a, T> {
    Tail {
        norm: &l.norm3,
        linear1: &l.linear1,
        linear1_bias: &l.linear1_bias,
        linear2: &l.linear2,
        linear2_bias: &l.linear2_bias,
        gamma: &l.gamma_2,
        norm_out: &l.norm_out,
    }
}

/// The error in bringing a layer of cross-attention to the device.
pub open spec fn cross_attn_error<T>(l: CrossAttnLayer<T>) -> Option<Seq<char>> {
    loading::or(mha_error(l.attn), tail_error(cross_attn_tail(l)))
}

/// The arrays of a layer of cross-attention.
#[verifier::opaque]
pub open spec fn cross_attn_arrays<T>(l: CrossAttnLayer<T>) -> Seq<Seq<T>> {
    layer_norm_arrays(l.norm1) + layer_norm_arrays(l.norm2) + mha_arrays(l.attn)
        + scale_arrays(l.gamma_1) + tail_arrays(cross_attn_tail(l))
}

/// The handles to a layer of cross-attention, the first array being `base`.
#[verifier::opaque]
pub open spec fn cross_attn_at<T>(l: CrossAttnLayer<T>, base: int) -> GpuCrossAttnLayer {
    let tail = tail_at(cross_attn_tail(l), base + 13);
    GpuCrossAttnLayer {
        norm1: layer_norm_at(l.norm1, base + 0),
        norm2: layer_norm_at(l.norm2, base + 2),
        attn: mha_at(l.attn, base + 4),
        gamma_1: scale_at(l.gamma_1, base + 12),
        norm3: tail.norm,
        linear1: tail.linear1,
        linear1_bias: tail.linear1_bias,
        linear2: tail.linear2,
        linear2_bias: tail.linear2_bias,
        gamma_2: tail.gamma,
        norm_out: tail.norm_out,
    }
}

impl GpuCrossAttnLayer {
    /// Brings a layer of cross-attention to the device.
    pub fn from_cpu<T: Copy>(
        up: &mut Uploads<T>,
        l: &CrossAttnLayer<T>,
    ) -> (r: Result<GpuCrossAttnLayer, DemucsError>)
        ensures
            match cross_attn_error(*l) {
                Some(t) => gpu_tensor::refused(r, t),
                None => {
                    &&& r == Ok::<GpuCrossAttnLayer, DemucsError>(
                        cross_attn_at(*l, old(up)@.len() as int)
                    )
                    &&& final(up)@ == old(up)@ + cross_attn_arrays(*l)
                },
            },
    {
        let ghost before = up@;
        proof {
            reveal(cross_attn_arrays);
            reveal(cross_attn_at);
            lemma_mha_arrays(l.attn);
        }
        let norm1: GpuLayerNorm1 = GpuLayerNorm1::from_cpu(up, &l.norm1)?;
        let norm2: GpuLayerNorm1 = GpuLayerNorm1::from_cpu(up, &l.norm2)?;
        let attn: GpuMhaWeights = GpuMhaWeights::from_cpu(up, &l.attn)?;
        let gamma_1: GpuLayerScale = GpuLayerScale::from_cpu(up, &l.gamma_1)?;
        let tail = GpuTail::from_cpu(
            up,
            &Tail {
                norm: &l.norm3,
                linear1: &l.linear1,
                linear1_bias: &l.linear1_bias,
                linear2: &l.linear2,
                linear2_bias: &l.linear2_bias,
                gamma: &l.gamma_2,
                norm_out: &l.norm_out,
            },
        )?;
        assert(up@ =~= before + cross_attn_arrays(*l));
        Ok(
            GpuCrossAttnLayer {
                norm1, norm2,
                attn,
                gamma_1,
                norm3: tail.norm,
                linear1: tail.linear1,
                linear1_bias: tail.linear1_bias,
                linear2: tail.linear2,
                linear2_bias: tail.linear2_bias,
                gamma_2: tail.gamma,
                norm_out: tail.norm_out,
            },
        )
    }
}

/// The handles to a residual layer are good.
proof fn lemma_dconv_layer_ok<T>(l: DConvLayer<T>, u: Seq<Seq<T>>, base: int)
    requires
        window(u, base, dconv_layer_arrays(l)),
        dconv_layer_error(l) is None,
    ensures
        gpu_model::dconv_layer_ok(upload_steps(u), dconv_layer_at(l, base)),
{
    reveal(dconv_layer_arrays);
    reveal(dconv_layer_at);
    lemma_parts(
        u,
        base,
        conv1d_arrays(l.conv1) + bias_arrays(l.conv1_bias) + group_norm_arrays(l.norm1)
            + conv1d_arrays(l.conv2) + bias_arrays(l.conv2_bias) + group_norm_arrays(l.norm2),
        scale_arrays(l.scale),
    );
    lemma_parts(
        u,
        base,
        conv1d_arrays(l.conv1) + bias_arrays(l.conv1_bias) + group_norm_arrays(l.norm1)
            + conv1d_arrays(l.conv2) + bias_arrays(l.conv2_bias),
        group_norm_arrays(l.norm2),
    );
    lemma_parts(
        u,
        base,
        conv1d_arrays(l.conv1) + bias_arrays(l.conv1_bias) + group_norm_arrays(l.norm1)
            + conv1d_arrays(l.conv2),
        bias_arrays(l.conv2_bias),
    );
    lemma_parts(
        u,
        base,
        conv1d_arrays(l.conv1) + bias_arrays(l.conv1_bias) + group_norm_arrays(l.norm1),
        conv1d_arrays(l.conv2),
    );
    lemma_parts(
        u,
        base,
        conv1d_arrays(l.conv1) + bias_arrays(l.conv1_bias),
        group_norm_arrays(l.norm1),
    );
    lemma_parts(u, base, conv1d_arrays(l.conv1), bias_arrays(l.conv1_bias));
    lemma_conv1d_ok(l.conv1, u, base + 0);
    lemma_bias_ok(l.conv1_bias, u, base + 1);
    lemma_group_norm_ok(l.norm1, u, base + 2);
    lemma_conv1d_ok(l.conv2, u, base + 4);
    lemma_bias_ok(l.conv2_bias, u, base + 5);
    lemma_group_norm_ok(l.norm2, u, base + 6);
    lemma_scale_ok(l.scale, u, base + 8);
}

/// The error in bringing a residual layer to the device.
pub open spec fn dconv_layer_error<T>(l: DConvLayer<T>) -> Option<Seq<char>> {
    loading::or(conv1d_error(l.conv1), conv1d_error(l.conv2))
}

/// The arrays of a residual layer.
#[verifier::opaque]
pub open spec fn dconv_layer_arrays<T>(l: DConvLayer<T>) -> Seq<Seq<T>> {
    conv1d_arrays(l.conv1) + bias_arrays(l.conv1_bias) + group_norm_arrays(l.norm1)
        + conv1d_arrays(l.conv2) + bias_arrays(l.conv2_bias) + group_norm_arrays(l.norm2)
        + scale_arrays(l.scale)
}

/// The handles to a residual layer, the first array being `base`.
#[verifier::opaque]
pub open spec fn dconv_layer_at<T>(l: DConvLayer<T>, base: int) -> GpuDConvLayer {
    GpuDConvLayer {
        conv1: conv1d_at(l.conv1, base + 0),
        conv1_bias: bias_at(l.conv1_bias, base + 1),
        norm1: group_norm_at(l.norm1, base + 2),
        conv2: conv1d_at(l.conv2, base + 4),
        conv2_bias: bias_at(l.conv2_bias, base + 5),
        norm2: group_norm_at(l.norm2, base + 6),
        scale: scale_at(l.scale, base + 8),
    }
}

impl GpuDConvLayer {
    /// Brings a residual layer to the device.
    pub fn from_cpu<T: Copy>(
        up: &mut Uploads<T>,
        l: &DConvLayer<T>,
    ) -> (r: Result<GpuDConvLayer, DemucsError>)
        ensures
            match dconv_layer_error(*l) {
                Some(t) => gpu_tensor::refused(r, t),
                None => {
                    &&& r == Ok::<GpuDConvLayer, DemucsError>(
                        dconv_layer_at(*l, old(up)@.len() as int)
                    )
                    &&& final(up)@ == old(up)@ + dconv_layer_arrays(*l)
                },
            },
    {
        let ghost before = up@;
        proof {
            reveal(dconv_layer_arrays);
            reveal(dconv_layer_at);
        }
        let conv1: GpuConv1dWeight = GpuConv1dWeight::from_cpu(up, &l.conv1)?;
        let conv1_bias: GpuBias = GpuBias::from_cpu(up, &l.conv1_bias)?;
        let norm1: GpuGroupNorm1 = GpuGroupNorm1::from_cpu(up, &l.norm1)?;
        let conv2: GpuConv1dWeight = GpuConv1dWeight::from_cpu(up, &l.conv2)?;
        let conv2_bias: GpuBias = GpuBias::from_cpu(up, &l.conv2_bias)?;
        let norm2: GpuGroupNorm1 = GpuGroupNorm1::from_cpu(up, &l.norm2)?;
        let scale: GpuLayerScale = GpuLayerScale::from_cpu(up, &l.scale)?;
        assert(up@ =~= before + dconv_layer_arrays(*l));
        Ok(GpuDConvLayer { conv1, conv1_bias, norm1, conv2, conv2_bias, norm2, scale })
    }
}

/// The first error in bringing the residual layers from `i` on to the device.
pub open spec fn dconv_layers_error_from<T>(v: Seq<DConvLayer<T>>, i: int) -> Option<Seq<char>>
    decreases v.len() - i,
{
    if i < 0 || i >= v.len() {
        None
    } else {
        loading::or(dconv_layer_error(v[i]), dconv_layers_error_from(v, i + 1))
    }
}

/// The arrays of the first `n` of the residual layers.
pub open spec fn dconv_layers_arrays<T>(v: Seq<DConvLayer<T>>, n: int) -> Seq<Seq<T>>
    decreases n,
{
    if n <= 0 {
        seq![]
    } else {
        dconv_layers_arrays(v, n - 1) + dconv_layer_arrays(v[n - 1])
    }
}

/// `g` are the handles to the residual layers, the first array being `base`.
#[verifier::opaque]
pub open spec fn are_dconv_layers_at<T>(
    g: Seq<GpuDConvLayer>,
    v: Seq<DConvLayer<T>>,
    base: int,
) -> bool {
    &&& g.len() == v.len()
    &&& forall|j: int|
        0 <= j < g.len() ==> (#[trigger] g[j]) == dconv_layer_at(
            v[j],
            base + dconv_layers_arrays(v, j).len(),
        )
}

/// Where there is no first error there is none.
pub(crate) proof fn lemma_dconv_layers_error<T>(v: Seq<DConvLayer<T>>, i: int, j: int)
    requires
        dconv_layers_error_from(v, i) is None,
        0 <= i <= j < v.len(),
    ensures
        dconv_layer_error(v[j]) is None,
    decreases j - i,
{
    if i < j {
        lemma_dconv_layers_error(v, i + 1, j);
    }
}

/// The arrays of the first are the first arrays.
pub(crate) proof fn lemma_dconv_layers_window<T>(
    v: Seq<DConvLayer<T>>,
    u: Seq<Seq<T>>,
    base: int,
    n: int,
    j: int,
)
    requires
        window(u, base, dconv_layers_arrays(v, n)),
        0 <= j < n <= v.len(),
    ensures
        window(u, base + dconv_layers_arrays(v, j).len(), dconv_layer_arrays(v[j])),
    decreases n,
{
    lemma_parts(u, base, dconv_layers_arrays(v, n - 1), dconv_layer_arrays(v[n - 1]));
    if j < n - 1 {
        lemma_dconv_layers_window(v, u, base, n - 1, j);
    }
}

/// The handles to the residual layers are good.
proof fn lemma_dconv_layers_ok<T>(
    g: Seq<GpuDConvLayer>,
    v: Seq<DConvLayer<T>>,
    u: Seq<Seq<T>>,
    base: int,
)
    requires
        window(u, base, dconv_layers_arrays(v, v.len() as int)),
        dconv_layers_error_from(v, 0) is None,
        are_dconv_layers_at(g, v, base),
    ensures
        forall|j: int| 0 <= j < g.len() ==> gpu_model::dconv_layer_ok(
            upload_steps(u),
            #[trigger] g[j],
        ),
{
    reveal(are_dconv_layers_at);
    assert forall|j: int| 0 <= j < g.len() implies gpu_model::dconv_layer_ok(
        upload_steps(u),
        #[trigger] g[j],
    ) by {
        lemma_dconv_layers_error(v, 0, j);
        lemma_dconv_layers_window(v, u, base, v.len() as int, j);
        lemma_dconv_layer_ok(v[j], u, base + dconv_layers_arrays(v, j).len());
    }
    
}

/// Brings the residual layers to the device.
fn dconv_layers<T: Copy>(
    up: &mut Uploads<T>,
    v: &Vec<DConvLayer<T>>,
) -> (r: Result<Vec<GpuDConvLayer>, DemucsError>)
    ensures
        match dconv_layers_error_from(v@, 0) {
            Some(t) => gpu_tensor::refused(r, t),
            None => {
                &&& r is Ok
                &&& are_dconv_layers_at(r->Ok_0@, v@, old(up)@.len() as int)
                &&& final(up)@ == old(up)@ + dconv_layers_arrays(v@, v@.len() as int)
            },
        },
{
    let ghost before = up@;
    let n: usize = v.len();
    let mut out: Vec<GpuDConvLayer> = Vec::new();
    let mut i: usize = 0;
    proof {
        reveal(are_dconv_layers_at);
        assert(up@ =~= before + dconv_layers_arrays(v@, 0));
    }
    while i < n
        invariant
            i <= n,
            n == v@.len(),
            before == old(up)@,
            up@ == before + dconv_layers_arrays(v@, i as int),
            out@.len() == i,
            forall|j: int|
                0 <= j < i ==> (#[trigger] out@[j]) == dconv_layer_at(
                    v@[j],
                    before.len() as int + dconv_layers_arrays(v@, j).len(),
                ),
            dconv_layers_error_from(v@, 0) == dconv_layers_error_from(v@, i as int),
        decreases n - i,
    {
        match GpuDConvLayer::from_cpu(up, &v[i]) {
            Ok(g) => {
                out.push(g);
            },
            Err(e) => {
                return Err(e);
            },
        }
        i = i + 1;
        assert(up@ =~= before + dconv_layers_arrays(v@, i as int));
    }
    Ok(out)
}

/// The error in bringing residual layers to the device.
pub open spec fn dconv_error<T>(l: DConv<T>) -> Option<Seq<char>> {
    dconv_layers_error_from(l.layers@, 0)
}

/// The arrays of residual layers.
pub open spec fn dconv_arrays<T>(l: DConv<T>) -> Seq<Seq<T>> {
    dconv_layers_arrays(l.layers@, l.layers@.len() as int)
}

/// `g` are the handles to residual layers.
pub open spec fn is_dconv_at<T>(g: GpuDConv, l: DConv<T>, base: int) -> bool {
    are_dconv_layers_at(g.layers@, l.layers@, base)
}

/// The handles to residual layers are good.
proof fn lemma_dconv_ok<T>(g: GpuDConv, l: DConv<T>, u: Seq<Seq<T>>, base: int)
    requires
        window(u, base, dconv_arrays(l)),
        dconv_error(l) is None,
        is_dconv_at(g, l, base),
    ensures
        gpu_model::dconv_ok(upload_steps(u), g),
{
    lemma_dconv_layers_ok(g.layers@, l.layers@, u, base);
}

impl GpuDConv {
    /// Brings residual layers to the device.
    pub fn from_cpu<T: Copy>(
        up: &mut Uploads<T>,
        l: &DConv<T>,
    ) -> (r: Result<GpuDConv, DemucsError>)
        ensures
            match dconv_error(*l) {
                Some(t) => gpu_tensor::refused(r, t),
                None => {
                    &&& r is Ok
                    &&& is_dconv_at(r->Ok_0, *l, old(up)@.len() as int)
                    &&& final(up)@ == old(up)@ + dconv_arrays(*l)
                },
            },
    {
        let layers: Vec<GpuDConvLayer> = dconv_layers(up, &l.layers)?;
        Ok(GpuDConv { layers })
    }
}

/// The error in bringing a layer of the frequency encoder to the device.
pub open spec fn henc_error<T>(l: HEncLayer<T>) -> Option<Seq<char>> {
    loading::or(conv2d_error(l.conv), loading::or(dconv_error(l.dconv), conv2d_error(l.rewrite)))
}

/// The arrays of a layer of the frequency encoder.
#[verifier::opaque]
pub open spec fn henc_arrays<T>(l: HEncLayer<T>) -> Seq<Seq<T>> {
    conv2d_arrays(l.conv) + bias_arrays(l.conv_bias) + dconv_arrays(l.dconv)
        + conv2d_arrays(l.rewrite) + bias_arrays(l.rewrite_bias)
}

/// `g` are the handles to a layer of the frequency encoder, the first array being `base`.
#[verifier::opaque]
pub open spec fn is_henc_at<T>(g: GpuHEncLayer, l: HEncLayer<T>, base: int) -> bool {
    &&& g.conv == conv2d_at(l.conv, base + 0)
    &&& g.conv_bias == bias_at(l.conv_bias, base + 1)
    &&& is_dconv_at(g.dconv, l.dconv, base + 2)
    &&& g.rewrite == conv2d_at(l.rewrite, base + 2 + dconv_arrays(l.dconv).len())
    &&& g.rewrite_bias == bias_at(l.rewrite_bias, base + 3 + dconv_arrays(l.dconv).len())
}

/// The handles to a layer of the frequency encoder are good.
proof fn lemma_henc_ok<T>(g: GpuHEncLayer, l: HEncLayer<T>, u: Seq<Seq<T>>, base: int)
    requires
        window(u, base, henc_arrays(l)),
        henc_error(l) is None,
        is_henc_at(g, l, base),
    ensures
        gpu_model::henc_ok(upload_steps(u), g),
{
    reveal(henc_arrays);
    reveal(is_henc_at);
    lemma_parts(
        u,
        base,
        conv2d_arrays(l.conv) + bias_arrays(l.conv_bias) + dconv_arrays(l.dconv)
            + conv2d_arrays(l.rewrite),
        bias_arrays(l.rewrite_bias),
    );
    lemma_parts(
        u,
        base,
        conv2d_arrays(l.conv) + bias_arrays(l.conv_bias) + dconv_arrays(l.dconv),
        conv2d_arrays(l.rewrite),
    );
    lemma_parts(u, base, conv2d_arrays(l.conv) + bias_arrays(l.conv_bias), dconv_arrays(l.dconv));
    lemma_parts(u, base, conv2d_arrays(l.conv), bias_arrays(l.conv_bias));
    lemma_conv2d_ok(l.conv, u, base + 0);
    lemma_bias_ok(l.conv_bias, u, base + 1);
    lemma_dconv_ok(g.dconv, l.dconv, u, base + 2);
    lemma_conv2d_ok(l.rewrite, u, base + 2 + dconv_arrays(l.dconv).len());
    lemma_bias_ok(l.rewrite_bias, u, base + 3 + dconv_arrays(l.dconv).len());
}

impl GpuHEncLayer {
    /// Brings a layer of the frequency encoder to the device.
    pub fn from_cpu<T: Copy>(
        up: &mut Uploads<T>,
        l: &HEncLayer<T>,
    ) -> (r: Result<GpuHEncLayer, DemucsError>)
        ensures
            match henc_error(*l) {
                Some(t) => gpu_tensor::refused(r, t),
                None => {
                    &&& r is Ok
                    &&& is_henc_at(r->Ok_0, *l, old(up)@.len() as int)
                    &&& final(up)@ == old(up)@ + henc_arrays(*l)
                },
            },
    {
        let ghost before = up@;
        proof {
            reveal(henc_arrays);
            reveal(is_henc_at);
        }
        let conv: GpuConv2dWeight = GpuConv2dWeight::from_cpu(up, &l.conv)?;
        let conv_bias: GpuBias = GpuBias::from_cpu(up, &l.conv_bias)?;
        let dconv: GpuDConv = GpuDConv::from_cpu(up, &l.dconv)?;
        let rewrite: GpuConv2dWeight = GpuConv2dWeight::from_cpu(up, &l.rewrite)?;
        let rewrite_bias: GpuBias = GpuBias::from_cpu(up, &l.rewrite_bias)?;
        assert(up@ =~= before + henc_arrays(*l));
        Ok(GpuHEncLayer { conv, conv_bias, dconv, rewrite, rewrite_bias })
    }
}

/// The error in bringing a layer of the time encoder to the device.
pub open spec fn tenc_error<T>(l: TEncLayer<T>) -> Option<Seq<char>> {
    loading::or(conv1d_error(l.conv), loading::or(dconv_error(l.dconv), conv1d_error(l.rewrite)))
}

/// The arrays of a layer of the time encoder.
#[verifier::opaque]
pub open spec fn tenc_arrays<T>(l: TEncLayer<T>) -> Seq<Seq<T>> {
    conv1d_arrays(l.conv) + bias_arrays(l.conv_bias) + dconv_arrays(l.dconv)
        + conv1d_arrays(l.rewrite) + bias_arrays(l.rewrite_bias)
}

/// `g` are the handles to a layer of the time encoder, the first array being `base`.
#[verifier::opaque]
pub open spec fn is_tenc_at<T>(g: GpuTEncLayer, l: TEncLayer<T>, base: int) -> bool {
    &&& g.conv == conv1d_at(l.conv, base + 0)
    &&& g.conv_bias == bias_at(l.conv_bias, base + 1)
    &&& is_dconv_at(g.dconv, l.dconv, base + 2)
    &&& g.rewrite == conv1d_at(l.rewrite, base + 2 + dconv_arrays(l.dconv).len())
    &&& g.rewrite_bias == bias_at(l.rewrite_bias, base + 3 + dconv_arrays(l.dconv).len())
}

/// The handles to a layer of the time encoder are good.
proof fn lemma_tenc_ok<T>(g: GpuTEncLayer, l: TEncLayer<T>, u: Seq<Seq<T>>, base: int)
    requires
        window(u, base, tenc_arrays(l)),
        tenc_error(l) is None,
        is_tenc_at(g, l, base),
    ensures
        gpu_model::tenc_ok(upload_steps(u), g),
{
    reveal(tenc_arrays);
    reveal(is_tenc_at);
    lemma_parts(
        u,
        base,
        conv1d_arrays(l.conv) + bias_arrays(l.conv_bias) + dconv_arrays(l.dconv)
            + conv1d_arrays(l.rewrite),
        bias_arrays(l.rewrite_bias),
    );
    lemma_parts(
        u,
        base,
        conv1d_arrays(l.conv) + bias_arrays(l.conv_bias) + dconv_arrays(l.dconv),
        conv1d_arrays(l.rewrite),
    );
    lemma_parts(u, base, conv1d_arrays(l.conv) + bias_arrays(l.conv_bias), dconv_arrays(l.dconv));
    lemma_parts(u, base, conv1d_arrays(l.conv), bias_arrays(l.conv_bias));
    lemma_conv1d_ok(l.conv, u, base + 0);
    lemma_bias_ok(l.conv_bias, u, base + 1);
    lemma_dconv_ok(g.dconv, l.dconv, u, base + 2);
    lemma_conv1d_ok(l.rewrite, u, base + 2 + dconv_arrays(l.dconv).len());
    lemma_bias_ok(l.rewrite_bias, u, base + 3 + dconv_arrays(l.dconv).len());
}

impl GpuTEncLayer {
    /// Brings a layer of the time encoder to the device.
    pub fn from_cpu<T: Copy>(
        up: &mut Uploads<T>,
        l: &TEncLayer<T>,
    ) -> (r: Result<GpuTEncLayer, DemucsError>)
        ensures
            match tenc_error(*l) {
                Some(t) => gpu_tensor::refused(r, t),
                None => {
                    &&& r is Ok
                    &&& is_tenc_at(r->Ok_0, *l, old(up)@.len() as int)
                    &&& final(up)@ == old(up)@ + tenc_arrays(*l)
                },
            },
    {
        let ghost before = up@;
        proof {
            reveal(tenc_arrays);
            reveal(is_tenc_at);
        }
        let conv: GpuConv1dWeight = GpuConv1dWeight::from_cpu(up, &l.conv)?;
        let conv_bias: GpuBias = GpuBias::from_cpu(up, &l.conv_bias)?;
        let dconv: GpuDConv = GpuDConv::from_cpu(up, &l.dconv)?;
        let rewrite: GpuConv1dWeight = GpuConv1dWeight::from_cpu(up, &l.rewrite)?;
        let rewrite_bias: GpuBias = GpuBias::from_cpu(up, &l.rewrite_bias)?;
        assert(up@ =~= before + tenc_arrays(*l));
        Ok(GpuTEncLayer { conv, conv_bias, dconv, rewrite, rewrite_bias })
    }
}

/// The error in bringing a layer of the frequency decoder to the device.
pub open spec fn hdec_error<T>(l: HDecLayer<T>) -> Option<Seq<char>> {
    loading::or(conv2d_error(l.rewrite), dconv_error(l.dconv))
}

/// The arrays of a layer of the frequency decoder.
#[verifier::opaque]
pub open spec fn hdec_arrays<T>(l: HDecLayer<T>) -> Seq<Seq<T>> {
    conv2d_arrays(l.rewrite) + bias_arrays(l.rewrite_bias) + dconv_arrays(l.dconv)
        + conv_tr2d_arrays(l.conv_tr) + bias_arrays(l.conv_tr_bias)
}

/// `g` are the handles to a layer of the frequency decoder, the first array being `base`.
#[verifier::opaque]
pub open spec fn is_hdec_at<T>(g: GpuHDecLayer, l: HDecLayer<T>, base: int) -> bool {
    &&& g.rewrite == conv2d_at(l.rewrite, base + 0)
    &&& g.rewrite_bias == bias_at(l.rewrite_bias, base + 1)
    &&& is_dconv_at(g.dconv, l.dconv, base + 2)
    &&& g.conv_tr == conv_tr2d_at(l.conv_tr, base + 2 + dconv_arrays(l.dconv).len())
    &&& g.conv_tr_bias == bias_at(l.conv_tr_bias, base + 3 + dconv_arrays(l.dconv).len())
    &&& g.last == l.last
}

/// The handles to a layer of the frequency decoder are good.
proof fn lemma_hdec_ok<T>(g: GpuHDecLayer, l: HDecLayer<T>, u: Seq<Seq<T>>, base: int)
    requires
        window(u, base, hdec_arrays(l)),
        hdec_error(l) is None,
        is_hdec_at(g, l, base),
    ensures
        gpu_model::hdec_ok(upload_steps(u), g),
{
    reveal(hdec_arrays);
    reveal(is_hdec_at);
    lemma_parts(
        u,
        base,
        conv2d_arrays(l.rewrite) + bias_arrays(l.rewrite_bias) + dconv_arrays(l.dconv)
            + conv_tr2d_arrays(l.conv_tr),
        bias_arrays(l.conv_tr_bias),
    );
    lemma_parts(
        u,
        base,
        conv2d_arrays(l.rewrite) + bias_arrays(l.rewrite_bias) + dconv_arrays(l.dconv),
        conv_tr2d_arrays(l.conv_tr),
    );
    lemma_parts(
        u,
        base,
        conv2d_arrays(l.rewrite) + bias_arrays(l.rewrite_bias),
        dconv_arrays(l.dconv),
    );
    lemma_parts(u, base, conv2d_arrays(l.rewrite), bias_arrays(l.rewrite_bias));
    lemma_conv2d_ok(l.rewrite, u, base + 0);
    lemma_bias_ok(l.rewrite_bias, u, base + 1);
    lemma_dconv_ok(g.dconv, l.dconv, u, base + 2);
    lemma_conv_tr2d_ok(l.conv_tr, u, base + 2 + dconv_arrays(l.dconv).len());
    lemma_bias_ok(l.conv_tr_bias, u, base + 3 + dconv_arrays(l.dconv).len());
}

impl GpuHDecLayer {
    /// Brings a layer of the frequency decoder to the device.
    pub fn from_cpu<T: Copy>(
        up: &mut Uploads<T>,
        l: &HDecLayer<T>,
    ) -> (r: Result<GpuHDecLayer, DemucsError>)
        ensures
            match hdec_error(*l) {
                Some(t) => gpu_tensor::refused(r, t),
                None => {
                    &&& r is Ok
                    &&& is_hdec_at(r->Ok_0, *l, old(up)@.len() as int)
                    &&& final(up)@ == old(up)@ + hdec_arrays(*l)
                },
            },
    {
        let ghost before = up@;
        proof {
            reveal(hdec_arrays);
            reveal(is_hdec_at);
        }
        let rewrite: GpuConv2dWeight = GpuConv2dWeight::from_cpu(up, &l.rewrite)?;
        let rewrite_bias: GpuBias = GpuBias::from_cpu(up, &l.rewrite_bias)?;
        let dconv: GpuDConv = GpuDConv::from_cpu(up, &l.dconv)?;
        let conv_tr: GpuConvTranspose2dWeight = GpuConvTranspose2dWeight::from_cpu(up, &l.conv_tr)?;
        let conv_tr_bias: GpuBias = GpuBias::from_cpu(up, &l.conv_tr_bias)?;
        assert(up@ =~= before + hdec_arrays(*l));
        Ok(GpuHDecLayer { rewrite, rewrite_bias, dconv, conv_tr, conv_tr_bias, last: l.last })
    }
}

/// The error in bringing a layer of the time decoder to the device.
pub open spec fn tdec_error<T>(l: TDecLayer<T>) -> Option<Seq<char>> {
    loading::or(conv1d_error(l.rewrite), dconv_error(l.dconv))
}

/// The arrays of a layer of the time decoder.
#[verifier::opaque]
pub open spec fn tdec_arrays<T>(l: TDecLayer<T>) -> Seq<Seq<T>> {
    conv1d_arrays(l.rewrite) + bias_arrays(l.rewrite_bias) + dconv_arrays(l.dconv)
        + conv_tr1d_arrays(l.conv_tr) + bias_arrays(l.conv_tr_bias)
}

/// `g` are the handles to a layer of the time decoder, the first array being `base`.
#[verifier::opaque]
pub open spec fn is_tdec_at<T>(g: GpuTDecLayer, l: TDecLayer<T>, base: int) -> bool {
    &&& g.rewrite == conv1d_at(l.rewrite, base + 0)
    &&& g.rewrite_bias == bias_at(l.rewrite_bias, base + 1)
    &&& is_dconv_at(g.dconv, l.dconv, base + 2)
    &&& g.conv_tr == conv_tr1d_at(l.conv_tr, base + 2 + dconv_arrays(l.dconv).len())
    &&& g.conv_tr_bias == bias_at(l.conv_tr_bias, base + 3 + dconv_arrays(l.dconv).len())
    &&& g.last == l.last
}

/// The handles to a layer of the time decoder are good.
proof fn lemma_tdec_ok<T>(g: GpuTDecLayer, l: TDecLayer<T>, u: Seq<Seq<T>>, base: int)
    requires
        window(u, base, tdec_arrays(l)),
        tdec_error(l) is None,
        is_tdec_at(g, l, base),
    ensures
        gpu_model::tdec_ok(upload_steps(u), g),
{
    reveal(tdec_arrays);
    reveal(is_tdec_at);
    lemma_parts(
        u,
        base,
        conv1d_arrays(l.rewrite) + bias_arrays(l.rewrite_bias) + dconv_arrays(l.dconv)
            + conv_tr1d_arrays(l.conv_tr),
        bias_arrays(l.conv_tr_bias),
    );
    lemma_parts(
        u,
        base,
        conv1d_arrays(l.rewrite) + bias_arrays(l.rewrite_bias) + dconv_arrays(l.dconv),
        conv_tr1d_arrays(l.conv_tr),
    );
    lemma_parts(
        u,
        base,
        conv1d_arrays(l.rewrite) + bias_arrays(l.rewrite_bias),
        dconv_arrays(l.dconv),
    );
    lemma_parts(u, base, conv1d_arrays(l.rewrite), bias_arrays(l.rewrite_bias));
    lemma_conv1d_ok(l.rewrite, u, base + 0);
    lemma_bias_ok(l.rewrite_bias, u, base + 1);
    lemma_dconv_ok(g.dconv, l.dconv, u, base + 2);
    lemma_conv_tr1d_ok(l.conv_tr, u, base + 2 + dconv_arrays(l.dconv).len());
    lemma_bias_ok(l.conv_tr_bias, u, base + 3 + dconv_arrays(l.dconv).len());
}

impl GpuTDecLayer {
    /// Brings a layer of the time decoder to the device.
    pub fn from_cpu<T: Copy>(
        up: &mut Uploads<T>,
        l: &TDecLayer<T>,
    ) -> (r: Result<GpuTDecLayer, DemucsError>)
        ensures
            match tdec_error(*l) {
                Some(t) => gpu_tensor::refused(r, t),
                None => {
                    &&& r is Ok
                    &&& is_tdec_at(r->Ok_0, *l, old(up)@.len() as int)
                    &&& final(up)@ == old(up)@ + tdec_arrays(*l)
                },
            },
    {
        let ghost before = up@;
        proof {
            reveal(tdec_arrays);
            reveal(is_tdec_at);
        }
        let rewrite: GpuConv1dWeight = GpuConv1dWeight::from_cpu(up, &l.rewrite)?;
        let rewrite_bias: GpuBias = GpuBias::from_cpu(up, &l.rewrite_bias)?;
        let dconv: GpuDConv = GpuDConv::from_cpu(up, &l.dconv)?;
        let conv_tr: GpuConvTranspose1dWeight = GpuConvTranspose1dWeight::from_cpu(up, &l.conv_tr)?;
        let conv_tr_bias: GpuBias = GpuBias::from_cpu(up, &l.conv_tr_bias)?;
        assert(up@ =~= before + tdec_arrays(*l));
        Ok(GpuTDecLayer { rewrite, rewrite_bias, dconv, conv_tr, conv_tr_bias, last: l.last })
    }
}

/// The first error in bringing the layers of the frequency encoder from `i` on to the device.
pub open spec fn hencs_error_from<T>(v: Seq<HEncLayer<T>>, i: int) -> Option<Seq<char>>
    decreases v.len() - i,
{
    if i < 0 || i >= v.len() {
        None
    } else {
        loading::or(henc_error(v[i]), hencs_error_from(v, i + 1))
    }
}

/// The arrays of the first `n` of the layers of the frequency encoder.
pub open spec fn hencs_arrays<T>(v: Seq<HEncLayer<T>>, n: int) -> Seq<Seq<T>>
    decreases n,
{
    if n <= 0 {
        seq![]
    } else {
        hencs_arrays(v, n - 1) + henc_arrays(v[n - 1])
    }
}

/// `g` are the handles to the layers of the frequency encoder, the first array being `base`.
#[verifier::opaque]
pub open spec fn are_hencs_at<T>(g: Seq<GpuHEncLayer>, v: Seq<HEncLayer<T>>, base: int) -> bool {
    &&& g.len() == v.len()
    &&& forall|j: int|
        0 <= j < g.len() ==> is_henc_at(#[trigger] g[j], v[j], base + hencs_arrays(v, j).len())
}

/// Where there is no first error there is none.
pub(crate) proof fn lemma_hencs_error<T>(v: Seq<HEncLayer<T>>, i: int, j: int)
    requires
        hencs_error_from(v, i) is None,
        0 <= i <= j < v.len(),
    ensures
        henc_error(v[j]) is None,
    decreases j - i,
{
    if i < j {
        lemma_hencs_error(v, i + 1, j);
    }
}

/// The arrays of the first are the first arrays.
pub(crate) proof fn lemma_hencs_window<T>(
    v: Seq<HEncLayer<T>>,
    u: Seq<Seq<T>>,
    base: int,
    n: int,
    j: int,
)
    requires
        window(u, base, hencs_arrays(v, n)),
        0 <= j < n <= v.len(),
    ensures
        window(u, base + hencs_arrays(v, j).len(), henc_arrays(v[j])),
    decreases n,
{
    lemma_parts(u, base, hencs_arrays(v, n - 1), henc_arrays(v[n - 1]));
    if j < n - 1 {
        lemma_hencs_window(v, u, base, n - 1, j);
    }
}

/// The handles to the layers of the frequency encoder are good.
proof fn lemma_hencs_ok<T>(g: Seq<GpuHEncLayer>, v: Seq<HEncLayer<T>>, u: Seq<Seq<T>>, base: int)
    requires
        window(u, base, hencs_arrays(v, v.len() as int)),
        hencs_error_from(v, 0) is None,
        are_hencs_at(g, v, base),
    ensures
        gpu_model::hencs_ok(upload_steps(u), g),
{
    reveal(are_hencs_at);
    assert forall|j: int| 0 <= j < g.len() implies gpu_model::henc_ok(
        upload_steps(u),
        #[trigger] g[j],
    ) by {
        lemma_hencs_error(v, 0, j);
        lemma_hencs_window(v, u, base, v.len() as int, j);
        lemma_henc_ok(g[j], v[j], u, base + hencs_arrays(v, j).len());
    }
    reveal(gpu_model::hencs_ok);
}

/// Brings the layers of the frequency encoder to the device.
fn hencs<T: Copy>(
    up: &mut Uploads<T>,
    v: &Vec<HEncLayer<T>>,
) -> (r: Result<Vec<GpuHEncLayer>, DemucsError>)
    ensures
        match hencs_error_from(v@, 0) {
            Some(t) => gpu_tensor::refused(r, t),
            None => {
                &&& r is Ok
                &&& are_hencs_at(r->Ok_0@, v@, old(up)@.len() as int)
                &&& final(up)@ == old(up)@ + hencs_arrays(v@, v@.len() as int)
            },
        },
{
    let ghost before = up@;
    let n: usize = v.len();
    let mut out: Vec<GpuHEncLayer> = Vec::new();
    let mut i: usize = 0;
    proof {
        reveal(are_hencs_at);
        assert(up@ =~= before + hencs_arrays(v@, 0));
    }
    while i < n
        invariant
            i <= n,
            n == v@.len(),
            before == old(up)@,
            up@ == before + hencs_arrays(v@, i as int),
            out@.len() == i,
            forall|j: int|
                0 <= j < i ==> is_henc_at(
                    #[trigger] out@[j],
                    v@[j],
                    before.len() as int + hencs_arrays(v@, j).len(),
                ),
            hencs_error_from(v@, 0) == hencs_error_from(v@, i as int),
        decreases n - i,
    {
        match GpuHEncLayer::from_cpu(up, &v[i]) {
            Ok(g) => {
                out.push(g);
            },
            Err(e) => {
                return Err(e);
            },
        }
        i = i + 1;
        assert(up@ =~= before + hencs_arrays(v@, i as int));
    }
    Ok(out)
}

/// The first error in bringing the layers of the time encoder from `i` on to the device.
pub open spec fn tencs_error_from<T>(v: Seq<TEncLayer<T>>, i: int) -> Option<Seq<char>>
    decreases v.len() - i,
{
    if i < 0 || i >= v.len() {
        None
    } else {
        loading::or(tenc_error(v[i]), tencs_error_from(v, i + 1))
    }
}

/// The arrays of the first `n` of the layers of the time encoder.
pub open spec fn tencs_arrays<T>(v: Seq<TEncLayer<T>>, n: int) -> Seq<Seq<T>>
    decreases n,
{
    if n <= 0 {
        seq![]
    } else {
        tencs_arrays(v, n - 1) + tenc_arrays(v[n - 1])
    }
}

/// `g` are the handles to the layers of the time encoder, the first array being `base`.
#[verifier::opaque]
pub open spec fn are_tencs_at<T>(g: Seq<GpuTEncLayer>, v: Seq<TEncLayer<T>>, base: int) -> bool {
    &&& g.len() == v.len()
    &&& forall|j: int|
        0 <= j < g.len() ==> is_tenc_at(#[trigger] g[j], v[j], base + tencs_arrays(v, j).len())
}

/// Where there is no first error there is none.
pub(crate) proof fn lemma_tencs_error<T>(v: Seq<TEncLayer<T>>, i: int, j: int)
    requires
        tencs_error_from(v, i) is None,
        0 <= i <= j < v.len(),
    ensures
        tenc_error(v[j]) is None,
    decreases j - i,
{
    if i < j {
        lemma_tencs_error(v, i + 1, j);
    }
}

/// The arrays of the first are the first arrays.
pub(crate) proof fn lemma_tencs_window<T>(
    v: Seq<TEncLayer<T>>,
    u: Seq<Seq<T>>,
    base: int,
    n: int,
    j: int,
)
    requires
        window(u, base, tencs_arrays(v, n)),
        0 <= j < n <= v.len(),
    ensures
        window(u, base + tencs_arrays(v, j).len(), tenc_arrays(v[j])),
    decreases n,
{
    lemma_parts(u, base, tencs_arrays(v, n - 1), tenc_arrays(v[n - 1]));
    if j < n - 1 {
        lemma_tencs_window(v, u, base, n - 1, j);
    }
}

/// The handles to the layers of the time encoder are good.
proof fn lemma_tencs_ok<T>(g: Seq<GpuTEncLayer>, v: Seq<TEncLayer<T>>, u: Seq<Seq<T>>, base: int)
    requires
        window(u, base, tencs_arrays(v, v.len() as int)),
        tencs_error_from(v, 0) is None,
        are_tencs_at(g, v, base),
    ensures
        gpu_model::tencs_ok(upload_steps(u), g),
{
    reveal(are_tencs_at);
    assert forall|j: int| 0 <= j < g.len() implies gpu_model::tenc_ok(
        upload_steps(u),
        #[trigger] g[j],
    ) by {
        lemma_tencs_error(v, 0, j);
        lemma_tencs_window(v, u, base, v.len() as int, j);
        lemma_tenc_ok(g[j], v[j], u, base + tencs_arrays(v, j).len());
    }
    reveal(gpu_model::tencs_ok);
}

/// Brings the layers of the time encoder to the device.
fn tencs<T: Copy>(
    up: &mut Uploads<T>,
    v: &Vec<TEncLayer<T>>,
) -> (r: Result<Vec<GpuTEncLayer>, DemucsError>)
    ensures
        match tencs_error_from(v@, 0) {
            Some(t) => gpu_tensor::refused(r, t),
            None => {
                &&& r is Ok
                &&& are_tencs_at(r->Ok_0@, v@, old(up)@.len() as int)
                &&& final(up)@ == old(up)@ + tencs_arrays(v@, v@.len() as int)
            },
        },
{
    let ghost before = up@;
    let n: usize = v.len();
    let mut out: Vec<GpuTEncLayer> = Vec::new();
    let mut i: usize = 0;
    proof {
        reveal(are_tencs_at);
        assert(up@ =~= before + tencs_arrays(v@, 0));
    }
    while i < n
        invariant
            i <= n,
            n == v@.len(),
            before == old(up)@,
            up@ == before + tencs_arrays(v@, i as int),
            out@.len() == i,
            forall|j: int|
                0 <= j < i ==> is_tenc_at(
                    #[trigger] out@[j],
                    v@[j],
                    before.len() as int + tencs_arrays(v@, j).len(),
                ),
            tencs_error_from(v@, 0) == tencs_error_from(v@, i as int),
        decreases n - i,
    {
        match GpuTEncLayer::from_cpu(up, &v[i]) {
            Ok(g) => {
                out.push(g);
            },
            Err(e) => {
                return Err(e);
            },
        }
        i = i + 1;
        assert(up@ =~= before + tencs_arrays(v@, i as int));
    }
    Ok(out)
}

/// The first error in bringing the layers of the frequency decoder from `i` on to the device.
pub open spec fn hdecs_error_from<T>(v: Seq<HDecLayer<T>>, i: int) -> Option<Seq<char>>
    decreases v.len() - i,
{
    if i < 0 || i >= v.len() {
        None
    } else {
        loading::or(hdec_error(v[i]), hdecs_error_from(v, i + 1))
    }
}

/// The arrays of the first `n` of the layers of the frequency decoder.
pub open spec fn hdecs_arrays<T>(v: Seq<HDecLayer<T>>, n: int) -> Seq<Seq<T>>
    decreases n,
{
    if n <= 0 {
        seq![]
    } else {
        hdecs_arrays(v, n - 1) + hdec_arrays(v[n - 1])
    }
}

/// `g` are the handles to the layers of the frequency decoder, the first array being `base`.
#[verifier::opaque]
pub open spec fn are_hdecs_at<T>(g: Seq<GpuHDecLayer>, v: Seq<HDecLayer<T>>, base: int) -> bool {
    &&& g.len() == v.len()
    &&& forall|j: int|
        0 <= j < g.len() ==> is_hdec_at(#[trigger] g[j], v[j], base + hdecs_arrays(v, j).len())
}

/// Where there is no first error there is none.
pub(crate) proof fn lemma_hdecs_error<T>(v: Seq<HDecLayer<T>>, i: int, j: int)
    requires
        hdecs_error_from(v, i) is None,
        0 <= i <= j < v.len(),
    ensures
        hdec_error(v[j]) is None,
    decreases j - i,
{
    if i < j {
        lemma_hdecs_error(v, i + 1, j);
    }
}

/// The arrays of the first are the first arrays.
pub(crate) proof fn lemma_hdecs_window<T>(
    v: Seq<HDecLayer<T>>,
    u: Seq<Seq<T>>,
    base: int,
    n: int,
    j: int,
)
    requires
        window(u, base, hdecs_arrays(v, n)),
        0 <= j < n <= v.len(),
    ensures
        window(u, base + hdecs_arrays(v, j).len(), hdec_arrays(v[j])),
    decreases n,
{
    lemma_parts(u, base, hdecs_arrays(v, n - 1), hdec_arrays(v[n - 1]));
    if j < n - 1 {
        lemma_hdecs_window(v, u, base, n - 1, j);
    }
}

/// The handles to the layers of the frequency decoder are good.
proof fn lemma_hdecs_ok<T>(g: Seq<GpuHDecLayer>, v: Seq<HDecLayer<T>>, u: Seq<Seq<T>>, base: int)
    requires
        window(u, base, hdecs_arrays(v, v.len() as int)),
        hdecs_error_from(v, 0) is None,
        are_hdecs_at(g, v, base),
    ensures
        gpu_model::hdecs_ok(upload_steps(u), g),
{
    reveal(are_hdecs_at);
    assert forall|j: int| 0 <= j < g.len() implies gpu_model::hdec_ok(
        upload_steps(u),
        #[trigger] g[j],
    ) by {
        lemma_hdecs_error(v, 0, j);
        lemma_hdecs_window(v, u, base, v.len() as int, j);
        lemma_hdec_ok(g[j], v[j], u, base + hdecs_arrays(v, j).len());
    }
    reveal(gpu_model::hdecs_ok);
}

/// Brings the layers of the frequency decoder to the device.
fn hdecs<T: Copy>(
    up: &mut Uploads<T>,
    v: &Vec<HDecLayer<T>>,
) -> (r: Result<Vec<GpuHDecLayer>, DemucsError>)
    ensures
        match hdecs_error_from(v@, 0) {
            Some(t) => gpu_tensor::refused(r, t),
            None => {
                &&& r is Ok
                &&& are_hdecs_at(r->Ok_0@, v@, old(up)@.len() as int)
                &&& final(up)@ == old(up)@ + hdecs_arrays(v@, v@.len() as int)
            },
        },
{
    let ghost before = up@;
    let n: usize = v.len();
    let mut out: Vec<GpuHDecLayer> = Vec::new();
    let mut i: usize = 0;
    proof {
        reveal(are_hdecs_at);
        assert(up@ =~= before + hdecs_arrays(v@, 0));
    }
    while i < n
        invariant
            i <= n,
            n == v@.len(),
            before == old(up)@,
            up@ == before + hdecs_arrays(v@, i as int),
            out@.len() == i,
            forall|j: int|
                0 <= j < i ==> is_hdec_at(
                    #[trigger] out@[j],
                    v@[j],
                    before.len() as int + hdecs_arrays(v@, j).len(),
                ),
            hdecs_error_from(v@, 0) == hdecs_error_from(v@, i as int),
        decreases n - i,
    {
        match GpuHDecLayer::from_cpu(up, &v[i]) {
            Ok(g) => {
                out.push(g);
            },
            Err(e) => {
                return Err(e);
            },
        }
        i = i + 1;
        assert(up@ =~= before + hdecs_arrays(v@, i as int));
    }
    Ok(out)
}

/// The first error in bringing the layers of the time decoder from `i` on to the device.
pub open spec fn tdecs_error_from<T>(v: Seq<TDecLayer<T>>, i: int) -> Option<Seq<char>>
    decreases v.len() - i,
{
    if i < 0 || i >= v.len() {
        None
    } else {
        loading::or(tdec_error(v[i]), tdecs_error_from(v, i + 1))
    }
}

/// The arrays of the first `n` of the layers of the time decoder.
pub open spec fn tdecs_arrays<T>(v: Seq<TDecLayer<T>>, n: int) -> Seq<Seq<T>>
    decreases n,
{
    if n <= 0 {
        seq![]
    } else {
        tdecs_arrays(v, n - 1) + tdec_arrays(v[n - 1])
    }
}

/// `g` are the handles to the layers of the time decoder, the first array being `base`.
#[verifier::opaque]
pub open spec fn are_tdecs_at<T>(g: Seq<GpuTDecLayer>, v: Seq<TDecLayer<T>>, base: int) -> bool {
    &&& g.len() == v.len()
    &&& forall|j: int|
        0 <= j < g.len() ==> is_tdec_at(#[trigger] g[j], v[j], base + tdecs_arrays(v, j).len())
}

/// Where there is no first error there is none.
pub(crate) proof fn lemma_tdecs_error<T>(v: Seq<TDecLayer<T>>, i: int, j: int)
    requires
        tdecs_error_from(v, i) is None,
        0 <= i <= j < v.len(),
    ensures
        tdec_error(v[j]) is None,
    decreases j - i,
{
    if i < j {
        lemma_tdecs_error(v, i + 1, j);
    }
}

/// The arrays of the first are the first arrays.
pub(crate) proof fn lemma_tdecs_window<T>(
    v: Seq<TDecLayer<T>>,
    u: Seq<Seq<T>>,
    base: int,
    n: int,
    j: int,
)
    requires
        window(u, base, tdecs_arrays(v, n)),
        0 <= j < n <= v.len(),
    ensures
        window(u, base + tdecs_arrays(v, j).len(), tdec_arrays(v[j])),
    decreases n,
{
    lemma_parts(u, base, tdecs_arrays(v, n - 1), tdec_arrays(v[n - 1]));
    if j < n - 1 {
        lemma_tdecs_window(v, u, base, n - 1, j);
    }
}

/// The handles to the layers of the time decoder are good.
proof fn lemma_tdecs_ok<T>(g: Seq<GpuTDecLayer>, v: Seq<TDecLayer<T>>, u: Seq<Seq<T>>, base: int)
    requires
        window(u, base, tdecs_arrays(v, v.len() as int)),
        tdecs_error_from(v, 0) is None,
        are_tdecs_at(g, v, base),
    ensures
        gpu_model::tdecs_ok(upload_steps(u), g),
{
    reveal(are_tdecs_at);
    assert forall|j: int| 0 <= j < g.len() implies gpu_model::tdec_ok(
        upload_steps(u),
        #[trigger] g[j],
    ) by {
        lemma_tdecs_error(v, 0, j);
        lemma_tdecs_window(v, u, base, v.len() as int, j);
        lemma_tdec_ok(g[j], v[j], u, base + tdecs_arrays(v, j).len());
    }
    reveal(gpu_model::tdecs_ok);
}

/// Brings the layers of the time decoder to the device.
fn tdecs<T: Copy>(
    up: &mut Uploads<T>,
    v: &Vec<TDecLayer<T>>,
) -> (r: Result<Vec<GpuTDecLayer>, DemucsError>)
    ensures
        match tdecs_error_from(v@, 0) {
            Some(t) => gpu_tensor::refused(r, t),
            None => {
                &&& r is Ok
                &&& are_tdecs_at(r->Ok_0@, v@, old(up)@.len() as int)
                &&& final(up)@ == old(up)@ + tdecs_arrays(v@, v@.len() as int)
            },
        },
{
    let ghost before = up@;
    let n: usize = v.len();
    let mut out: Vec<GpuTDecLayer> = Vec::new();
    let mut i: usize = 0;
    proof {
        reveal(are_tdecs_at);
        assert(up@ =~= before + tdecs_arrays(v@, 0));
    }
    while i < n
        invariant
            i <= n,
            n == v@.len(),
            before == old(up)@,
            up@ == before + tdecs_arrays(v@, i as int),
            out@.len() == i,
            forall|j: int|
                0 <= j < i ==> is_tdec_at(
                    #[trigger] out@[j],
                    v@[j],
                    before.len() as int + tdecs_arrays(v@, j).len(),
                ),
            tdecs_error_from(v@, 0) == tdecs_error_from(v@, i as int),
        decreases n - i,
    {
        match GpuTDecLayer::from_cpu(up, &v[i]) {
            Ok(g) => {
                out.push(g);
            },
            Err(e) => {
                return Err(e);
            },
        }
        i = i + 1;
        assert(up@ =~= before + tdecs_arrays(v@, i as int));
    }
    Ok(out)
}

/// The error in bringing a transformer layer to the device.
pub open spec fn transformer_layer_error<T>(l: TransformerLayerWeights<T>) -> Option<Seq<char>> {
    match l.self_attn {
        Some(x) => self_attn_error(x),
        None => match l.cross_attn {
            Some(x) => cross_attn_error(x),
            None => Some("transformer layer has neither self_attn nor cross_attn"@),
        },
    }
}

/// The arrays of a transformer layer.
pub open spec fn transformer_layer_arrays<T>(l: TransformerLayerWeights<T>) -> Seq<Seq<T>> {
    match l.self_attn {
        Some(x) => self_attn_arrays(x),
        None => match l.cross_attn {
            Some(x) => cross_attn_arrays(x),
            None => seq![],
        },
    }
}

/// `g` are the handles to a transformer layer, the first array being `base`.
pub open spec fn is_transformer_layer_at<T>(
    g: GpuTransformerLayerWeights,
    l: TransformerLayerWeights<T>,
    base: int,
) -> bool {
    match l.self_attn {
        Some(x) => g == GpuTransformerLayerWeights::SelfAttn(self_attn_at(x, base)),
        None => match l.cross_attn {
            Some(x) => g == GpuTransformerLayerWeights::CrossAttn(cross_attn_at(x, base)),
            None => false,
        },
    }
}

/// The handles to a transformer layer are good.
proof fn lemma_transformer_layer_ok<T>(
    g: GpuTransformerLayerWeights,
    l: TransformerLayerWeights<T>,
    u: Seq<Seq<T>>,
    base: int,
)
    requires
        window(u, base, transformer_layer_arrays(l)),
        transformer_layer_error(l) is None,
        is_transformer_layer_at(g, l, base),
    ensures
        gpu_model::transformer_layer_ok(upload_steps(u), g),
{
    reveal(gpu_model::transformer_layer_ok);
    match l.self_attn {
        Some(x) => lemma_self_attn_ok(x, u, base),
        None => match l.cross_attn {
            Some(x) => lemma_cross_attn_ok(x, u, base),
            None => {},
        },
    }
}

impl GpuTransformerLayerWeights {
    /// Brings a transformer layer to the device.
    pub fn from_cpu<T: Copy>(up: &mut Uploads<T>, l: &TransformerLayerWeights<T>) -> (r: Result<
        GpuTransformerLayerWeights,
        DemucsError,
    >)
        ensures
            match transformer_layer_error(*l) {
                Some(t) => gpu_tensor::refused(r, t),
                None => {
                    &&& r is Ok
                    &&& is_transformer_layer_at(r->Ok_0, *l, old(up)@.len() as int)
                    &&& final(up)@ == old(up)@ + transformer_layer_arrays(*l)
                },
            },
    {
        match &l.self_attn {
            Some(x) => {
                let g: GpuSelfAttnLayer = GpuSelfAttnLayer::from_cpu(up, x)?;
                Ok(GpuTransformerLayerWeights::SelfAttn(g))
            },
            None => match &l.cross_attn {
                Some(x) => {
                    let g: GpuCrossAttnLayer = GpuCrossAttnLayer::from_cpu(up, x)?;
                    Ok(GpuTransformerLayerWeights::CrossAttn(g))
                },
                None => Err(
                    DemucsError::Shape(
                        "transformer layer has neither self_attn nor cross_attn".to_owned(),
                    ),
                ),
            },
        }
    }
}

/// The first error in bringing the layers of the transformer from `i` on to the device.
pub open spec fn transformer_layers_error_from<T>(
    v: Seq<TransformerLayerWeights<T>>,
    i: int,
) -> Option<Seq<char>>
    decreases v.len() - i,
{
    if i < 0 || i >= v.len() {
        None
    } else {
        loading::or(transformer_layer_error(v[i]), transformer_layers_error_from(v, i + 1))
    }
}

/// The arrays of the first `n` of the layers of the transformer.
pub open spec fn transformer_layers_arrays<T>(
    v: Seq<TransformerLayerWeights<T>>,
    n: int,
) -> Seq<Seq<T>>
    decreases n,
{
    if n <= 0 {
        seq![]
    } else {
        transformer_layers_arrays(v, n - 1) + transformer_layer_arrays(v[n - 1])
    }
}

/// `g` are the handles to the layers of the transformer, the first array being `base`.
#[verifier::opaque]
pub open spec fn are_transformer_layers_at<T>(
    g: Seq<GpuTransformerLayerWeights>,
    v: Seq<TransformerLayerWeights<T>>,
    base: int,
) -> bool {
    &&& g.len() == v.len()
    &&& forall|j: int|
        0 <= j < g.len() ==> is_transformer_layer_at(
            #[trigger] g[j],
            v[j],
            base + transformer_layers_arrays(v, j).len(),
        )
}

/// Where there is no first error there is none.
pub(crate) proof fn lemma_transformer_layers_error<T>(
    v: Seq<TransformerLayerWeights<T>>,
    i: int,
    j: int,
)
    requires
        transformer_layers_error_from(v, i) is None,
        0 <= i <= j < v.len(),
    ensures
        transformer_layer_error(v[j]) is None,
    decreases j - i,
{
    if i < j {
        lemma_transformer_layers_error(v, i + 1, j);
    }
}

/// The arrays of the first are the first arrays.
pub(crate) proof fn lemma_transformer_layers_window<T>(
    v: Seq<TransformerLayerWeights<T>>,
    u: Seq<Seq<T>>,
    base: int,
    n: int,
    j: int,
)
    requires
        window(u, base, transformer_layers_arrays(v, n)),
        0 <= j < n <= v.len(),
    ensures
        window(u, base + transformer_layers_arrays(v, j).len(), transformer_layer_arrays(v[j])),
    decreases n,
{
    lemma_parts(u, base, transformer_layers_arrays(v, n - 1), transformer_layer_arrays(v[n - 1]));
    if j < n - 1 {
        lemma_transformer_layers_window(v, u, base, n - 1, j);
    }
}

/// The handles to the layers of the transformer are good.
proof fn lemma_transformer_layers_ok<T>(
    g: Seq<GpuTransformerLayerWeights>,
    v: Seq<TransformerLayerWeights<T>>,
    u: Seq<Seq<T>>,
    base: int,
)
    requires
        window(u, base, transformer_layers_arrays(v, v.len() as int)),
        transformer_layers_error_from(v, 0) is None,
        are_transformer_layers_at(g, v, base),
    ensures
        gpu_model::transformer_layers_ok(upload_steps(u), g),
{
    reveal(are_transformer_layers_at);
    assert forall|j: int| 0 <= j < g.len() implies gpu_model::transformer_layer_ok(
        upload_steps(u),
        #[trigger] g[j],
    ) by {
        lemma_transformer_layers_error(v, 0, j);
        lemma_transformer_layers_window(v, u, base, v.len() as int, j);
        lemma_transformer_layer_ok(g[j], v[j], u, base + transformer_layers_arrays(v, j).len());
    }
    reveal(gpu_model::transformer_layers_ok);
}

/// Brings the layers of the transformer to the device.
fn transformer_layers<T: Copy>(
    up: &mut Uploads<T>,
    v: &Vec<TransformerLayerWeights<T>>,
) -> (r: Result<Vec<GpuTransformerLayerWeights>, DemucsError>)
    ensures
        match transformer_layers_error_from(v@, 0) {
            Some(t) => gpu_tensor::refused(r, t),
            None => {
                &&& r is Ok
                &&& are_transformer_layers_at(r->Ok_0@, v@, old(up)@.len() as int)
                &&& final(up)@ == old(up)@ + transformer_layers_arrays(v@, v@.len() as int)
            },
        },
{
    let ghost before = up@;
    let n: usize = v.len();
    let mut out: Vec<GpuTransformerLayerWeights> = Vec::new();
    let mut i: usize = 0;
    proof {
        reveal(are_transformer_layers_at);
        assert(up@ =~= before + transformer_layers_arrays(v@, 0));
    }
    while i < n
        invariant
            i <= n,
            n == v@.len(),
            before == old(up)@,
            up@ == before + transformer_layers_arrays(v@, i as int),
            out@.len() == i,
            forall|j: int|
                0 <= j < i ==> is_transformer_layer_at(
                    #[trigger] out@[j],
                    v@[j],
                    before.len() as int + transformer_layers_arrays(v@, j).len(),
                ),
            transformer_layers_error_from(v@, 0) == transformer_layers_error_from(v@, i as int),
        decreases n - i,
    {
        match GpuTransformerLayerWeights::from_cpu(up, &v[i]) {
            Ok(g) => {
                out.push(g);
            },
            Err(e) => {
                return Err(e);
            },
        }
        i = i + 1;
        assert(up@ =~= before + transformer_layers_arrays(v@, i as int));
    }
    Ok(out)
}

/// The error in bringing a channel resampler to the device.
pub open spec fn resampler_error<T>(w: Option<Conv1dWeight<T>>) -> Option<Seq<char>> {
    match w {
        Some(w) => conv1d_error(w),
        None => None,
    }
}

/// The arrays of a channel resampler.
#[verifier::opaque]
pub open spec fn resampler_arrays<T>(w: Option<Conv1dWeight<T>>, b: Option<Vec<T>>) -> Seq<Seq<T>> {
    (match w {
        Some(w) => conv1d_arrays(w),
        None => seq![],
    }) + (match b {
        Some(b) => seq![b@],
        None => seq![],
    })
}

/// `gw` and `gb` are the handles to a channel resampler, the first array being `base`.
#[verifier::opaque]
pub open spec fn is_resampler_at<T>(
    gw: Option<GpuConv1dWeight>,
    gb: Option<GpuBias>,
    w: Option<Conv1dWeight<T>>,
    b: Option<Vec<T>>,
    base: int,
) -> bool {
    let next = if w is Some {
        base + 1
    } else {
        base
    };
    &&& match w {
        Some(w) => gw == Some(conv1d_at(w, base)),
        None => gw is None,
    }
    &&& match b {
        Some(b) => gb == Some(vector_at(b@, next)),
        None => gb is None,
    }
}

/// The handles to a channel resampler are good.
proof fn lemma_resampler_ok<T>(
    gw: Option<GpuConv1dWeight>,
    gb: Option<GpuBias>,
    w: Option<Conv1dWeight<T>>,
    b: Option<Vec<T>>,
    u: Seq<Seq<T>>,
    base: int,
)
    requires
        window(u, base, resampler_arrays(w, b)),
        is_resampler_at(gw, gb, w, b, base),
    ensures
        gpu_model::resampler_ok(upload_steps(u), gw, gb),
{
    reveal(resampler_arrays);
    reveal(is_resampler_at);
    let first = match w {
        Some(w) => conv1d_arrays(w),
        None => seq![],
    };
    let second = match b {
        Some(b) => seq![b@],
        None => seq![],
    };
    lemma_parts(u, base, first, second);
    if w is Some {
        lemma_conv1d_ok(w->0, u, base);
    }
    if b is Some {
        lemma_array(u, base + first.len(), second, 0);
    }
}

/// Brings a channel resampler to the device.
fn resampler<T: Copy>(up: &mut Uploads<T>, w: &Option<Conv1dWeight<T>>, b: &Option<Vec<T>>) -> (r: Result<
    (Option<GpuConv1dWeight>, Option<GpuBias>),
    DemucsError,
>)
    ensures
        match resampler_error(*w) {
            Some(t) => gpu_tensor::refused(r, t),
            None => {
                &&& r is Ok
                &&& is_resampler_at(r->Ok_0.0, r->Ok_0.1, *w, *b, old(up)@.len() as int)
                &&& final(up)@ == old(up)@ + resampler_arrays(*w, *b)
            },
        },
{
    let ghost before = up@;
    proof {
        reveal(resampler_arrays);
        reveal(is_resampler_at);
    }
    let gw: Option<GpuConv1dWeight> = match w {
        Some(w) => Some(GpuConv1dWeight::from_cpu(up, w)?),
        None => None,
    };
    let gb: Option<GpuBias> = match b {
        Some(b) => Some(GpuBias::from_vector(up, b)),
        None => None,
    };
    assert(up@ =~= before + resampler_arrays(*w, *b));
    Ok((gw, gb))
}

/// The error in bringing the transformer to the device.
pub open spec fn transformer_error<T>(l: CrossDomainTransformer<T>) -> Option<Seq<char>> {
    loading::or(
        transformer_layers_error_from(l.layers@, 0),
        loading::or(
            transformer_layers_error_from(l.layers_t@, 0),
            loading::or(
                resampler_error(l.channel_upsampler),
                loading::or(
                    resampler_error(l.channel_downsampler),
                    loading::or(
                        resampler_error(l.channel_upsampler_t),
                        resampler_error(l.channel_downsampler_t),
                    ),
                ),
            ),
        ),
    )
}

/// The arrays of part `j` of the transformer, in the order in which they go: the layers for the
/// frequencies and the times, the resamplers, the norms.
pub open spec fn transformer_part<T>(l: CrossDomainTransformer<T>, j: int) -> Seq<Seq<T>> {

    if j == 0 {
        transformer_layers_arrays(l.layers@, l.layers@.len() as int)
    } else if j == 1 {
        transformer_layers_arrays(l.layers_t@, l.layers_t@.len() as int)
    } else if j == 2 {
        resampler_arrays(l.channel_upsampler, l.channel_upsampler_bias)
    } else if j == 3 {
        resampler_arrays(l.channel_downsampler, l.channel_downsampler_bias)
    } else if j == 4 {
        resampler_arrays(l.channel_upsampler_t, l.channel_upsampler_t_bias)
    } else if j == 5 {
        resampler_arrays(l.channel_downsampler_t, l.channel_downsampler_t_bias)
    } else if j == 6 {
        layer_norm_arrays(l.norm_in)
    } else {
        layer_norm_arrays(l.norm_in_t)
    }
}

/// The arrays of the first `n` parts of the transformer.
#[verifier::opaque]
pub open spec fn transformer_parts<T>(l: CrossDomainTransformer<T>, n: int) -> Seq<Seq<T>>
    decreases n,
{
    if n <= 0 {
        seq![]
    } else {
        transformer_parts(l, n - 1) + transformer_part(l, n - 1)
    }
}

/// The arrays of the transformer.
pub open spec fn transformer_arrays<T>(l: CrossDomainTransformer<T>) -> Seq<Seq<T>> {
    transformer_parts(l, 8)
}

/// One part more.
proof fn lemma_transformer_part<T>(l: CrossDomainTransformer<T>, n: int)
    requires
        n >= 0,
    ensures
        transformer_parts(l, n + 1) == transformer_parts(l, n) + transformer_part(l, n),
{
    reveal(transformer_parts);
}

/// The window of a part.
pub(crate) proof fn lemma_transformer_window<T>(
    l: CrossDomainTransformer<T>,
    u: Seq<Seq<T>>,
    base: int,
    n: int,
    j: int,
)
    requires
        window(u, base, transformer_parts(l, n)),
        0 <= j < n,
    ensures
        window(u, base + transformer_parts(l, j).len(), transformer_part(l, j)),
    decreases n,
{
    lemma_transformer_part(l, n - 1);
    lemma_parts(u, base, transformer_parts(l, n - 1), transformer_part(l, n - 1));
    if j < n - 1 {
        lemma_transformer_window(l, u, base, n - 1, j);
    }
}

/// `g` are the handles to the transformer, the first array being `base`.
#[verifier::opaque]
pub open spec fn is_transformer_at<T>(
    g: GpuCrossDomainTransformer,
    l: CrossDomainTransformer<T>,
    base: int,
) -> bool {
    &&& are_transformer_layers_at(g.layers@, l.layers@, base + transformer_parts(l, 0).len())
    &&& are_transformer_layers_at(g.layers_t@, l.layers_t@, base + transformer_parts(l, 1).len())
    &&& is_resampler_at(
        g.channel_upsampler,
        g.channel_upsampler_bias,
        l.channel_upsampler,
        l.channel_upsampler_bias,
        base + transformer_parts(l, 2).len(),
    )
    &&& is_resampler_at(
        g.channel_downsampler,
        g.channel_downsampler_bias,
        l.channel_downsampler,
        l.channel_downsampler_bias,
        base + transformer_parts(l, 3).len(),
    )
    &&& is_resampler_at(
        g.channel_upsampler_t,
        g.channel_upsampler_t_bias,
        l.channel_upsampler_t,
        l.channel_upsampler_t_bias,
        base + transformer_parts(l, 4).len(),
    )
    &&& is_resampler_at(
        g.channel_downsampler_t,
        g.channel_downsampler_t_bias,
        l.channel_downsampler_t,
        l.channel_downsampler_t_bias,
        base + transformer_parts(l, 5).len(),
    )
    &&& g.norm_in == layer_norm_at(l.norm_in, base + transformer_parts(l, 6).len())
    &&& g.norm_in_t == layer_norm_at(l.norm_in_t, base + transformer_parts(l, 7).len())
}

/// The handles to the transformer are good.
proof fn lemma_transformer_ok<T>(
    g: GpuCrossDomainTransformer,
    l: CrossDomainTransformer<T>,
    u: Seq<Seq<T>>,
    base: int,
)
    requires
        window(u, base, transformer_arrays(l)),
        transformer_error(l) is None,
        is_transformer_at(g, l, base),
    ensures
        gpu_model::transformer_ok(upload_steps(u), g),
{
    reveal(is_transformer_at);
    lemma_transformer_window(l, u, base, 8, 0);
    lemma_transformer_window(l, u, base, 8, 1);
    lemma_transformer_window(l, u, base, 8, 2);
    lemma_transformer_window(l, u, base, 8, 3);
    lemma_transformer_window(l, u, base, 8, 4);
    lemma_transformer_window(l, u, base, 8, 5);
    lemma_transformer_window(l, u, base, 8, 6);
    lemma_transformer_window(l, u, base, 8, 7);
    lemma_transformer_layers_ok(g.layers@, l.layers@, u, base + transformer_parts(l, 0).len());
    lemma_transformer_layers_ok(g.layers_t@, l.layers_t@, u, base + transformer_parts(l, 1).len());
    lemma_resampler_ok(
        g.channel_upsampler,
        g.channel_upsampler_bias,
        l.channel_upsampler,
        l.channel_upsampler_bias,
        u,
        base + transformer_parts(l, 2).len(),
    );
    lemma_resampler_ok(
        g.channel_downsampler,
        g.channel_downsampler_bias,
        l.channel_downsampler,
        l.channel_downsampler_bias,
        u,
        base + transformer_parts(l, 3).len(),
    );
    lemma_resampler_ok(
        g.channel_upsampler_t,
        g.channel_upsampler_t_bias,
        l.channel_upsampler_t,
        l.channel_upsampler_t_bias,
        u,
        base + transformer_parts(l, 4).len(),
    );
    lemma_resampler_ok(
        g.channel_downsampler_t,
        g.channel_downsampler_t_bias,
        l.channel_downsampler_t,
        l.channel_downsampler_t_bias,
        u,
        base + transformer_parts(l, 5).len(),
    );
    lemma_layer_norm_ok(l.norm_in, u, base + transformer_parts(l, 6).len());
    lemma_layer_norm_ok(l.norm_in_t, u, base + transformer_parts(l, 7).len());
}

impl GpuCrossDomainTransformer {
    /// Brings the transformer to the device.
    pub fn from_cpu<T: Copy>(up: &mut Uploads<T>, l: &CrossDomainTransformer<T>) -> (r: Result<
        GpuCrossDomainTransformer,
        DemucsError,
    >)
        ensures
            match transformer_error(*l) {
                Some(t) => gpu_tensor::refused(r, t),
                None => {
                    &&& r is Ok
                    &&& is_transformer_at(r->Ok_0, *l, old(up)@.len() as int)
                    &&& final(up)@ == old(up)@ + transformer_arrays(*l)
                },
            },
    {
        let ghost before = up@;
        proof {
            reveal(is_transformer_at);
            reveal(transformer_parts);
            assert(before =~= before + transformer_parts(*l, 0));
        }
        let layers: Vec<GpuTransformerLayerWeights> = transformer_layers(up, &l.layers)?;
        proof {
            lemma_transformer_part(*l, 0);
            assert(up@ =~= before + transformer_parts(*l, 1));
        }
        let layers_t: Vec<GpuTransformerLayerWeights> = transformer_layers(up, &l.layers_t)?;
        proof {
            lemma_transformer_part(*l, 1);
            assert(up@ =~= before + transformer_parts(*l, 2));
        }
        let (channel_upsampler, channel_upsampler_bias) = resampler(
            up,
            &l.channel_upsampler,
            &l.channel_upsampler_bias,
        )?;
        proof {
            lemma_transformer_part(*l, 2);
            assert(up@ =~= before + transformer_parts(*l, 3));
        }
        let (channel_downsampler, channel_downsampler_bias) = resampler(
            up,
            &l.channel_downsampler,
            &l.channel_downsampler_bias,
        )?;
        proof {
            lemma_transformer_part(*l, 3);
            assert(up@ =~= before + transformer_parts(*l, 4));
        }
        let (channel_upsampler_t, channel_upsampler_t_bias) = resampler(
            up,
            &l.channel_upsampler_t,
            &l.channel_upsampler_t_bias,
        )?;
        proof {
            lemma_transformer_part(*l, 4);
            assert(up@ =~= before + transformer_parts(*l, 5));
        }
        let (channel_downsampler_t, channel_downsampler_t_bias) = resampler(
            up,
            &l.channel_downsampler_t,
            &l.channel_downsampler_t_bias,
        )?;
        proof {
            lemma_transformer_part(*l, 5);
            assert(up@ =~= before + transformer_parts(*l, 6));
        }
        let norm_in: GpuLayerNorm1 = GpuLayerNorm1::from_cpu(up, &l.norm_in)?;
        proof {
            lemma_transformer_part(*l, 6);
            assert(up@ =~= before + transformer_parts(*l, 7));
        }
        let norm_in_t: GpuLayerNorm1 = GpuLayerNorm1::from_cpu(up, &l.norm_in_t)?;
        proof {
            lemma_transformer_part(*l, 7);
            assert(up@ =~= before + transformer_parts(*l, 8));
        }
        Ok(
            GpuCrossDomainTransformer {
                norm_in,
                norm_in_t,
                channel_upsampler,
                channel_upsampler_bias,
                channel_downsampler,
                channel_downsampler_bias,
                channel_upsampler_t,
                channel_upsampler_t_bias,
                channel_downsampler_t,
                channel_downsampler_t_bias,
                layers,
                layers_t,
            },
        )
    }
}

/// The error in bringing a model to the device.
pub open spec fn model_error<T>(l: HTDemucs<T>) -> Option<Seq<char>> {
    loading::or(
        hencs_error_from(l.encoders@, 0),
        loading::or(
            tencs_error_from(l.tencoders@, 0),
            loading::or(
                hdecs_error_from(l.decoders@, 0),
                loading::or(
                    tdecs_error_from(l.tdecoders@, 0),
                    transformer_error(l.crosstransformer),
                ),
            ),
        ),
    )
}

/// The arrays of part `j` of a model: the encoders, the decoders, the transformer, the
/// embedding.
pub open spec fn model_part<T>(l: HTDemucs<T>, j: int) -> Seq<Seq<T>> {

    if j == 0 {
        hencs_arrays(l.encoders@, l.encoders@.len() as int)
    } else if j == 1 {
        tencs_arrays(l.tencoders@, l.tencoders@.len() as int)
    } else if j == 2 {
        hdecs_arrays(l.decoders@, l.decoders@.len() as int)
    } else if j == 3 {
        tdecs_arrays(l.tdecoders@, l.tdecoders@.len() as int)
    } else if j == 4 {
        transformer_arrays(l.crosstransformer)
    } else {
        emb_arrays(l.freq_emb)
    }
}

/// The arrays of the first `n` parts of a model.
#[verifier::opaque]
pub open spec fn model_parts<T>(l: HTDemucs<T>, n: int) -> Seq<Seq<T>>
    decreases n,
{
    if n <= 0 {
        seq![]
    } else {
        model_parts(l, n - 1) + model_part(l, n - 1)
    }
}

/// The arrays of a model.
pub open spec fn model_arrays<T>(l: HTDemucs<T>) -> Seq<Seq<T>> {
    model_parts(l, 6)
}

/// One part more.
proof fn lemma_model_part<T>(l: HTDemucs<T>, n: int)
    requires
        n >= 0,
    ensures
        model_parts(l, n + 1) == model_parts(l, n) + model_part(l, n),
{
    reveal(model_parts);
}

/// The window of a part.
pub(crate) proof fn lemma_model_window<T>(l: HTDemucs<T>, u: Seq<Seq<T>>, base: int, n: int, j: int)
    requires
        window(u, base, model_parts(l, n)),
        0 <= j < n,
    ensures
        window(u, base + model_parts(l, j).len(), model_part(l, j)),
    decreases n,
{
    lemma_model_part(l, n - 1);
    lemma_parts(u, base, model_parts(l, n - 1), model_part(l, n - 1));
    if j < n - 1 {
        lemma_model_window(l, u, base, n - 1, j);
    }
}

/// `g` are the handles to a model, the first array being `base`.
#[verifier::opaque]
pub open spec fn is_model_at<T>(g: GpuHTDemucs, l: HTDemucs<T>, base: int) -> bool {
    &&& are_hencs_at(g.encoders@, l.encoders@, base + model_parts(l, 0).len())
    &&& are_tencs_at(g.tencoders@, l.tencoders@, base + model_parts(l, 1).len())
    &&& are_hdecs_at(g.decoders@, l.decoders@, base + model_parts(l, 2).len())
    &&& are_tdecs_at(g.tdecoders@, l.tdecoders@, base + model_parts(l, 3).len())
    &&& is_transformer_at(g.crosstransformer, l.crosstransformer, base + model_parts(l, 4).len())
    &&& g.freq_emb == emb_at(l.freq_emb, base + model_parts(l, 5).len())
    &&& g.n_sources == l.n_sources
    &&& g.bottom_channels == l.bottom_channels
}

/// The handles to a model are good: the program that brings its arrays to the device makes
/// every weight, with the number of elements that the handle says.
pub proof fn model_handles_good<T>(g: GpuHTDemucs, l: HTDemucs<T>, u: Seq<Seq<T>>)
    requires
        u == model_arrays(l),
        u.len() <= usize::MAX,
        model_error(l) is None,
        is_model_at(g, l, 0),
    ensures
        gpu_model::model_ok(upload_steps(u), g),
{
    reveal(is_model_at);
    reveal(window);
    let base: int = 0;
    assert(window(u, base, model_arrays(l)));
    lemma_model_window(l, u, base, 6, 0);
    lemma_model_window(l, u, base, 6, 1);
    lemma_model_window(l, u, base, 6, 2);
    lemma_model_window(l, u, base, 6, 3);
    lemma_model_window(l, u, base, 6, 4);
    lemma_model_window(l, u, base, 6, 5);
    lemma_hencs_ok(g.encoders@, l.encoders@, u, base + model_parts(l, 0).len());
    lemma_tencs_ok(g.tencoders@, l.tencoders@, u, base + model_parts(l, 1).len());
    lemma_hdecs_ok(g.decoders@, l.decoders@, u, base + model_parts(l, 2).len());
    lemma_tdecs_ok(g.tdecoders@, l.tdecoders@, u, base + model_parts(l, 3).len());
    lemma_transformer_ok(g.crosstransformer, l.crosstransformer, u, base + model_parts(l, 4).len());
    lemma_emb_ok(l.freq_emb, u, base + model_parts(l, 5).len());
}

impl GpuHTDemucs {
    /// Brings a model to the device.
    pub fn from_cpu<T: Copy>(up: &mut Uploads<T>, l: &HTDemucs<T>) -> (r: Result<
        GpuHTDemucs,
        DemucsError,
    >)
        ensures
            match model_error(*l) {
                Some(t) => gpu_tensor::refused(r, t),
                None => {
                    &&& r is Ok
                    &&& is_model_at(r->Ok_0, *l, old(up)@.len() as int)
                    &&& final(up)@ == old(up)@ + model_arrays(*l)
                },
            },
    {
        let ghost before = up@;
        proof {
            reveal(is_model_at);
            reveal(model_parts);
            assert(before =~= before + model_parts(*l, 0));
        }
        let encoders: Vec<GpuHEncLayer> = hencs(up, &l.encoders)?;
        proof {
            lemma_model_part(*l, 0);
            assert(up@ =~= before + model_parts(*l, 1));
        }
        let tencoders: Vec<GpuTEncLayer> = tencs(up, &l.tencoders)?;
        proof {
            lemma_model_part(*l, 1);
            assert(up@ =~= before + model_parts(*l, 2));
        }
        let decoders: Vec<GpuHDecLayer> = hdecs(up, &l.decoders)?;
        proof {
            lemma_model_part(*l, 2);
            assert(up@ =~= before + model_parts(*l, 3));
        }
        let tdecoders: Vec<GpuTDecLayer> = tdecs(up, &l.tdecoders)?;
        proof {
            lemma_model_part(*l, 3);
            assert(up@ =~= before + model_parts(*l, 4));
        }
        let crosstransformer: GpuCrossDomainTransformer = GpuCrossDomainTransformer::from_cpu(
            up,
            &l.crosstransformer,
        )?;
        proof {
            lemma_model_part(*l, 4);
            assert(up@ =~= before + model_parts(*l, 5));
        }
        let freq_emb: GpuFreqEmb = GpuFreqEmb::from_cpu(up, &l.freq_emb)?;
        proof {
            lemma_model_part(*l, 5);
            assert(up@ =~= before + model_parts(*l, 6));
        }
        Ok(
            GpuHTDemucs {
                encoders,
                tencoders,
                crosstransformer,
                decoders,
                tdecoders,
                freq_emb,
                n_sources: l.n_sources,
                bottom_channels: l.bottom_channels,
            },
        )
    }
}

} // verus!
