//! Tensors as they are stored in a weight file.
use vstd::prelude::*;
use crate::arith;
use crate::arith::Arith;
use crate::arith::HalfArith;
use crate::ops_cpu::layout;
use crate::text;

verus! {

/// How the elements of a stored tensor are encoded.
#[derive(Clone, Copy, Debug, PartialEq, Eq, Structural)]
pub enum Dtype {
    /// Truth values, one byte.
    Bool,
    /// Unsigned integers of one byte.
    U8,
    /// Signed integers of one byte.
    I8,
    /// Numbers of one byte, five bits of it the exponent.
    F8E5M2,
    /// Numbers of one byte, four bits of it the exponent.
    F8E4M3,
    /// Signed integers of two bytes.
    I16,
    /// Unsigned integers of two bytes.
    U16,
    /// IEEE 754 half precision, two bytes.
    F16,
    /// The upper half of single precision, two bytes.
    BF16,
    /// Signed integers of four bytes.
    I32,
    /// Unsigned integers of four bytes.
    U32,
    /// IEEE 754 single precision, four bytes.
    F32,
    /// IEEE 754 double precision, eight bytes.
    F64,
    /// Signed integers of eight bytes.
    I64,
    /// Unsigned integers of eight bytes.
    U64,
    /// An encoding of any other name.
    Other,
}

/// The encoding of a name.
pub open spec fn dtype_named(name: Seq<char>) -> Dtype {
    if name == "BOOL"@ {
        Dtype::Bool
    } else if name == "U8"@ {
        Dtype::U8
    } else if name == "I8"@ {
        Dtype::I8
    } else if name == "F8_E5M2"@ {
        Dtype::F8E5M2
    } else if name == "F8_E4M3"@ {
        Dtype::F8E4M3
    } else if name == "I16"@ {
        Dtype::I16
    } else if name == "U16"@ {
        Dtype::U16
    } else if name == "F16"@ {
        Dtype::F16
    } else if name == "BF16"@ {
        Dtype::BF16
    } else if name == "I32"@ {
        Dtype::I32
    } else if name == "U32"@ {
        Dtype::U32
    } else if name == "F32"@ {
        Dtype::F32
    } else if name == "F64"@ {
        Dtype::F64
    } else if name == "I64"@ {
        Dtype::I64
    } else if name == "U64"@ {
        Dtype::U64
    } else {
        Dtype::Other
    }
}

impl Dtype {
    /// The encoding of a name.
    pub fn named(name: &str) -> (r: Dtype)
        ensures
            r == dtype_named(name@),
    {
        if text::same(name, "BOOL") {
            Dtype::Bool
        } else if text::same(name, "U8") {
            Dtype::U8
        } else if text::same(name, "I8") {
            Dtype::I8
        } else if text::same(name, "F8_E5M2") {
            Dtype::F8E5M2
        } else if text::same(name, "F8_E4M3") {
            Dtype::F8E4M3
        } else if text::same(name, "I16") {
            Dtype::I16
        } else if text::same(name, "U16") {
            Dtype::U16
        } else if text::same(name, "F16") {
            Dtype::F16
        } else if text::same(name, "BF16") {
            Dtype::BF16
        } else if text::same(name, "I32") {
            Dtype::I32
        } else if text::same(name, "U32") {
            Dtype::U32
        } else if text::same(name, "F32") {
            Dtype::F32
        } else if text::same(name, "F64") {
            Dtype::F64
        } else if text::same(name, "I64") {
            Dtype::I64
        } else if text::same(name, "U64") {
            Dtype::U64
        } else {
            Dtype::Other
        }
    }
}

/// One stored tensor: its bytes, each element's lowest first, its shape and its encoding.
pub struct RawTensor {
    pub data: Vec<u8>,
    pub shape: Vec<usize>,
    pub dtype: Dtype,
}

/// The contents of a tensor.
pub struct RawTensorView {
    pub data: Seq<u8>,
    pub shape: Seq<usize>,
    pub dtype: Dtype,
}

impl View for RawTensor {
    type V = RawTensorView;

    open spec fn view(&self) -> RawTensorView {
        RawTensorView { data: self.data@, shape: self.shape@, dtype: self.dtype }
    }
}

/// The number in two bytes, the lower first.
pub open spec fn pair_value(lo: u8, hi: u8) -> int {
    lo + 256 * hi
}

/// Number of whole elements in a tensor; none where the encoding is not supported.
pub open spec fn element_count(t: RawTensorView) -> int {
    match t.dtype {
        Dtype::F32 => t.data.len() as int / 4,
        Dtype::F16 => t.data.len() as int / 2,
        Dtype::BF16 => t.data.len() as int / 2,
        _ => 0,
    }
}

/// `r` may be element `i` of a tensor.
pub open spec fn is_element<A: Arith>(a: &A, t: RawTensorView, i: int, r: A::T) -> bool {
    match t.dtype {
        Dtype::F32 => arith::is_decoded(
            a,
            (pair_value(t.data[4 * i], t.data[4 * i + 1]) + 65536 * pair_value(
                t.data[4 * i + 2],
                t.data[4 * i + 3],
            )) as u32,
            r,
        ),
        Dtype::F16 => arith::is_decoded_half(
            a,
            pair_value(t.data[2 * i], t.data[2 * i + 1]) as u16,
            r,
        ),
        Dtype::BF16 => arith::is_decoded(
            a,
            (65536 * pair_value(t.data[2 * i], t.data[2 * i + 1])) as u32,
            r,
        ),
        _ => false,
    }
}

/// `out` are the elements of a tensor.
#[verifier::opaque]
pub open spec fn are_elements<A: Arith>(a: &A, t: RawTensorView, out: Seq<A::T>) -> bool {
    &&& out.len() == element_count(t)
    &&& forall|i: int| 0 <= i < out.len() ==> is_element(a, t, i, #[trigger] out[i])
}

/// `r` may be element `i` of a tensor, in half precision.
pub open spec fn is_half_element<A: HalfArith>(a: &A, t: RawTensorView, i: int, r: A::H) -> bool {
    match t.dtype {
        Dtype::F16 => arith::is_half(a, pair_value(t.data[2 * i], t.data[2 * i + 1]) as u16, r),
        _ => exists|v: A::T| #[trigger] is_element(a, t, i, v) && arith::is_narrowed(a, v, r),
    }
}

/// `out` are the elements of a tensor, in half precision.
pub open spec fn are_half_elements<A: HalfArith>(a: &A, t: RawTensorView, out: Seq<A::H>) -> bool {
    &&& out.len() == element_count(t)
    &&& forall|i: int| 0 <= i < out.len() ==> is_half_element(a, t, i, #[trigger] out[i])
}

/// The number in two bytes, the lower first.
pub fn pair(lo: u8, hi: u8) -> (r: u16)
    ensures
        r == pair_value(lo, hi),
{
    lo as u16 + 256 * (hi as u16)
}

impl Clone for RawTensor {
    fn clone(&self) -> (r: RawTensor)
        ensures
            r@ == self@,
    {
        RawTensor {
            data: layout::to_vec(&self.data),
            shape: layout::to_vec(&self.shape),
            dtype: self.dtype,
        }
    }
}

impl RawTensor {
    /// The elements of the tensor; none where the encoding is not supported. Bytes that make
    /// up no whole element are ignored.
    pub fn to_f32_vec<A: Arith>(&self, a: &A) -> (r: Vec<A::T>)
        ensures
            r@.len() == element_count(self@),
            are_elements(a, self@, r@),
    {
        let n: usize = match self.dtype {
            Dtype::F32 => self.data.len() / 4,
            Dtype::F16 => self.data.len() / 2,
            Dtype::BF16 => self.data.len() / 2,
            _ => 0,
        };
        let mut out: Vec<A::T> = Vec::new();
        let mut i: usize = 0;
        while i < n
            invariant
                i <= n,
                n == element_count(self@),
                out@.len() == i,
                forall|j: int| 0 <= j < i ==> is_element(a, self@, j, #[trigger] out@[j]),
            decreases n - i,
        {
            let d: &Vec<u8> = &self.data;
            let len: usize = d.len();
            let v: A::T = match self.dtype {
                Dtype::F32 => {
                    let lo: u32 = pair(d[4 * i], d[4 * i + 1]) as u32;
                    let hi: u32 = pair(d[4 * i + 2], d[4 * i + 3]) as u32;
                    arith::decoded(a, lo + 65536 * hi)
                },
                Dtype::F16 => arith::decoded_half(a, pair(d[2 * i], d[2 * i + 1])),
                Dtype::BF16 => {
                    let hi: u32 = pair(d[2 * i], d[2 * i + 1]) as u32;
                    arith::decoded(a, 65536 * hi)
                },
                _ => arith::zero(a),
            };
            assert(is_element(a, self@, i as int, v));
            out.push(v);
            i = i + 1;
        }
        proof {
            reveal(are_elements);
        }
        out
    }

    /// The elements of the tensor in half precision; none where the encoding is not supported.
    pub fn to_f16_vec<A: HalfArith>(&self, a: &A) -> (r: Vec<A::H>)
        ensures
            are_half_elements(a, self@, r@),
    {
        let mut out: Vec<A::H> = Vec::new();
        let mut i: usize = 0;
        match self.dtype {
            Dtype::F16 => {
                let d: &Vec<u8> = &self.data;
                let n: usize = d.len() / 2;
                while i < n
                    invariant
                        i <= n,
                        n == element_count(self@),
                        self.dtype == Dtype::F16,
                        d@ == self.data@,
                        out@.len() == i,
                        forall|j: int|
                            0 <= j < i ==> is_half_element(a, self@, j, #[trigger] out@[j]),
                    decreases n - i,
                {
                    let len: usize = d.len();
                    let h: A::H = arith::half(a, pair(d[2 * i], d[2 * i + 1]));
                    out.push(h);
                    i = i + 1;
                }
            },
            _ => {
                let v: Vec<A::T> = self.to_f32_vec(a);
                let n: usize = v.len();
                proof {
                    reveal(are_elements);
                }
                while i < n
                    invariant
                        i <= n,
                        n == v@.len(),
                        n == element_count(self@),
                        self.dtype != Dtype::F16,
                        forall|j: int| 0 <= j < n ==> is_element(a, self@, j, #[trigger] v@[j]),
                        out@.len() == i,
                        forall|j: int|
                            0 <= j < i ==> is_half_element(a, self@, j, #[trigger] out@[j]),
                    decreases n - i,
                {
                    let h: A::H = arith::narrow(a, v[i]);
                    assert(is_element(a, self@, i as int, v@[i as int]));
                    out.push(h);
                    i = i + 1;
                }
            },
        }
        out
    }

    /// The elements of the tensor and its shape.
    pub fn as_f32<A: Arith>(&self, a: &A) -> (r: (Vec<A::T>, Vec<usize>))
        ensures
            are_elements(a, self@, r.0@),
            r.1@ == self.shape@,
    {
        (self.to_f32_vec(a), layout::to_vec(&self.shape))
    }
}

} // verus!
