//! Tensors on the graphics device, as a program names them.
use vstd::prelude::*;
use crate::error::DemucsError;
use crate::program;
use crate::program::Step;
use crate::program::LIMIT;
use crate::text;

verus! {

/// A value of a program, of `len` elements.
#[derive(Clone, Copy, Debug, PartialEq, Eq, Structural)]
pub struct GpuBuffer {
    pub id: usize,
    pub len: usize,
}

/// A value of a program as a tensor of `rank` axes, row-major. The axes that it does not have
/// are 1.
#[derive(Clone, Copy, Debug, PartialEq, Eq, Structural)]
pub struct GpuTensor {
    pub data: GpuBuffer,
    pub rank: usize,
    pub d0: usize,
    pub d1: usize,
    pub d2: usize,
    pub d3: usize,
}

/// The program makes the buffer.
pub open spec fn buffer_ok(s: Seq<Step>, b: GpuBuffer) -> bool {
    b.id < s.len() && program::step_len(s[b.id as int]) == b.len
}

/// The axes are within what the device takes, and the elements are as many as they say.
pub open spec fn shape_ok(t: GpuTensor) -> bool {
    &&& t.d0 <= LIMIT
    &&& t.d1 <= LIMIT
    &&& t.d2 <= LIMIT
    &&& t.d3 <= LIMIT
    &&& t.data.len <= LIMIT
    &&& t.rank == 2 ==> t.data.len == t.d0 * t.d1 && t.d2 == 1 && t.d3 == 1
    &&& t.rank == 3 ==> t.data.len == t.d0 * t.d1 * t.d2 && t.d3 == 1
    &&& t.rank == 4 ==> t.data.len == t.d0 * t.d1 * t.d2 * t.d3
    &&& 2 <= t.rank <= 4
}

/// The program makes the tensor.
pub open spec fn tensor_ok(s: Seq<Step>, t: GpuTensor) -> bool {
    buffer_ok(s, t.data) && shape_ok(t)
}

/// The axes of a tensor.
pub open spec fn shape_of(t: GpuTensor) -> Seq<usize> {
    if t.rank == 2 {
        seq![t.d0, t.d1]
    } else if t.rank == 3 {
        seq![t.d0, t.d1, t.d2]
    } else {
        seq![t.d0, t.d1, t.d2, t.d3]
    }
}

/// Number of elements of `[a, b]`, where the device takes it.
pub open spec fn size2(a: usize, b: usize) -> Option<usize> {
    if a <= LIMIT && b <= LIMIT && a * b <= LIMIT {
        Some((a * b) as usize)
    } else {
        None
    }
}

/// Number of elements of `[a, b, c]`, where the device takes it.
pub open spec fn size3(a: usize, b: usize, c: usize) -> Option<usize> {
    if size2(a, b) is Some && c <= LIMIT && a * b * c <= LIMIT {
        Some((a * b * c) as usize)
    } else {
        None
    }
}

/// Number of elements of `[a, b, c, d]`, where the device takes it.
pub open spec fn size4(a: usize, b: usize, c: usize, d: usize) -> Option<usize> {
    if size3(a, b, c) is Some && d <= LIMIT && a * b * c * d <= LIMIT {
        Some((a * b * c * d) as usize)
    } else {
        None
    }
}

/// Number of elements of `[a, b]`.
pub fn count2(a: usize, b: usize) -> (r: Option<usize>)
    ensures
        r == size2(a, b),
{
    if a <= LIMIT && b <= LIMIT {
        assert(a * b <= LIMIT * LIMIT) by (nonlinear_arith)
            requires
                a <= LIMIT,
                b <= LIMIT,
        ;
        let n: u64 = a as u64 * b as u64;
        if n <= LIMIT as u64 {
            return Some(n as usize);
        }
    }
    None
}

/// Number of elements of `[a, b, c]`.
pub fn count3(a: usize, b: usize, c: usize) -> (r: Option<usize>)
    ensures
        r == size3(a, b, c),
{
    match count2(a, b) {
        Some(n) => count2(n, c),
        None => None,
    }
}

/// Number of elements of `[a, b, c, d]`.
pub fn count4(a: usize, b: usize, c: usize, d: usize) -> (r: Option<usize>)
    ensures
        r == size4(a, b, c, d),
{
    match count3(a, b, c) {
        Some(n) => count2(n, d),
        None => None,
    }
}

/// The tensor `[d0, d1]` in the buffer `id`.
#[verifier::allow_in_spec]
pub fn tensor2(id: usize, len: usize, d0: usize, d1: usize) -> GpuTensor
    returns
        (GpuTensor { data: GpuBuffer { id, len }, rank: 2, d0, d1, d2: 1, d3: 1 }),
{
    GpuTensor { data: GpuBuffer { id, len }, rank: 2, d0, d1, d2: 1, d3: 1 }
}

/// The tensor `[d0, d1, d2]` in the buffer `id`.
#[verifier::allow_in_spec]
pub fn tensor3(id: usize, len: usize, d0: usize, d1: usize, d2: usize) -> GpuTensor
    returns
        (GpuTensor { data: GpuBuffer { id, len }, rank: 3, d0, d1, d2, d3: 1 }),
{
    GpuTensor { data: GpuBuffer { id, len }, rank: 3, d0, d1, d2, d3: 1 }
}

/// The tensor `[d0, d1, d2, d3]` in the buffer `id`.
#[verifier::allow_in_spec]
pub fn tensor4(id: usize, len: usize, d0: usize, d1: usize, d2: usize, d3: usize) -> GpuTensor
    returns
        (GpuTensor { data: GpuBuffer { id, len }, rank: 4, d0, d1, d2, d3 }),
{
    GpuTensor { data: GpuBuffer { id, len }, rank: 4, d0, d1, d2, d3 }
}

/// The tensor `t` with its elements in the value `id`.
#[verifier::allow_in_spec]
pub fn moved(t: GpuTensor, id: usize) -> GpuTensor
    returns
        (GpuTensor {
            data: GpuBuffer { id, len: t.data.len },
            rank: t.rank,
            d0: t.d0,
            d1: t.d1,
            d2: t.d2,
            d3: t.d3,
        }),
{
    GpuTensor {
        data: GpuBuffer { id, len: t.data.len },
        rank: t.rank,
        d0: t.d0,
        d1: t.d1,
        d2: t.d2,
        d3: t.d3,
    }
}

/// What comes of building a part of a program: the program and a handle to its value, or the
/// text of an error.
pub type Built<R> = core::result::Result<(Seq<Step>, R), Seq<char>>;

/// `r` is the error with the text `t`.
pub open spec fn refused<R>(r: Result<R, DemucsError>, t: Seq<char>) -> bool {
    r is Err && r->Err_0 is Shape && r->Err_0->Shape_0@ == t
}

/// `r` and the program `s` are what `b` says.
pub open spec fn built<R>(b: Built<R>, r: Result<R, DemucsError>, s: Seq<Step>) -> bool {
    match b {
        Ok((program, value)) => r == Ok::<R, DemucsError>(value) && s == program,
        Err(text) => refused(r, text),
    }
}

/// The text of the error for a size that the device does not take.
pub open spec fn too_large() -> Seq<char> {
    "a tensor is too large for the device"@
}

/// The text of the error for a buffer that is shorter than a kernel asks for.
pub open spec fn too_short() -> Seq<char> {
    "a buffer is too short for the kernel"@
}

/// The error for a size that the device does not take.
pub fn large() -> (r: DemucsError)
    ensures
        r is Shape,
        r->Shape_0@ == too_large(),
{
    DemucsError::Shape("a tensor is too large for the device".to_owned())
}

/// The error for a buffer that is shorter than a kernel asks for.
pub fn short() -> (r: DemucsError)
    ensures
        r is Shape,
        r->Shape_0@ == too_short(),
{
    DemucsError::Shape("a buffer is too short for the kernel".to_owned())
}

/// The text of the error for elements that are not as many as the axes say.
pub open spec fn mismatch(shape: Seq<usize>) -> Seq<char> {
    "GpuTensor data len mismatch (shape "@ + text::list_text(shape) + ")"@
}

/// The error for elements that are not as many as the axes say.
fn mismatched(shape: &Vec<usize>) -> (r: DemucsError)
    ensures
        r is Shape,
        r->Shape_0@ == mismatch(shape@),
{
    let l: String = text::list(shape);
    DemucsError::Shape(text::join3("GpuTensor data len mismatch (shape ", l.as_str(), ")"))
}

/// The buffer as a tensor `[d0, d1, d2]`.
pub open spec fn as_tensor3(b: GpuBuffer, d0: usize, d1: usize, d2: usize) -> Result<
    GpuTensor,
    Seq<char>,
> {
    if size3(d0, d1, d2) == Some(b.len) {
        Ok(tensor3(b.id, b.len, d0, d1, d2))
    } else {
        Err(mismatch(seq![d0, d1, d2]))
    }
}

/// The buffer as a tensor `[d0, d1, d2, d3]`.
pub open spec fn as_tensor4(b: GpuBuffer, d0: usize, d1: usize, d2: usize, d3: usize) -> Result<
    GpuTensor,
    Seq<char>,
> {
    if size4(d0, d1, d2, d3) == Some(b.len) {
        Ok(tensor4(b.id, b.len, d0, d1, d2, d3))
    } else {
        Err(mismatch(seq![d0, d1, d2, d3]))
    }
}

/// `r` is what `e` says.
pub open spec fn shaped(
    e: Result<GpuTensor, Seq<char>>,
    r: Result<GpuTensor, DemucsError>,
) -> bool {
    match e {
        Ok(t) => r == Ok::<GpuTensor, DemucsError>(t) && shape_ok(t),
        Err(text) => refused(r, text),
    }
}

impl GpuTensor {
    /// The buffer as a tensor of three axes.
    pub fn new3(
        b: GpuBuffer,
        d0: usize,
        d1: usize,
        d2: usize,
    ) -> (r: Result<GpuTensor, DemucsError>)
        ensures
            shaped(as_tensor3(b, d0, d1, d2), r),
    {
        match count3(d0, d1, d2) {
            Some(n) if n == b.len => Ok(tensor3(b.id, b.len, d0, d1, d2)),
            _ => {
                let v: Vec<usize> = vec![d0, d1, d2];
                assert(v@ =~= seq![d0, d1, d2]);
                Err(mismatched(&v))
            },
        }
    }

    /// The buffer as a tensor of four axes.
    pub fn new4(b: GpuBuffer, d0: usize, d1: usize, d2: usize, d3: usize) -> (r: Result<
        GpuTensor,
        DemucsError,
    >)
        ensures
            shaped(as_tensor4(b, d0, d1, d2, d3), r),
    {
        match count4(d0, d1, d2, d3) {
            Some(n) if n == b.len => Ok(tensor4(b.id, b.len, d0, d1, d2, d3)),
            _ => {
                let v: Vec<usize> = vec![d0, d1, d2, d3];
                assert(v@ =~= seq![d0, d1, d2, d3]);
                Err(mismatched(&v))
            },
        }
    }

    /// The axes.
    pub fn shape(&self) -> (r: Vec<usize>)
        ensures
            r@ == shape_of(*self),
    {
        let r: Vec<usize> = if self.rank == 2 {
            vec![self.d0, self.d1]
        } else if self.rank == 3 {
            vec![self.d0, self.d1, self.d2]
        } else {
            vec![self.d0, self.d1, self.d2, self.d3]
        };
        assert(r@ =~= shape_of(*self));
        r
    }

    /// Number of elements.
    pub fn numel(&self) -> (r: usize)
        ensures
            r == self.data.len,
    {
        self.data.len
    }
}

} // verus!
