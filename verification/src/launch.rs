//! How the steps of a program are started on the device.
use vstd::prelude::*;
use crate::gpu_tensor;
use crate::program;
use crate::program::Factor;
use crate::program::Ints;
use crate::program::Kernel;
use crate::program::Launch;
use crate::program::Program;
use crate::program::Step;
use crate::program::LIMIT;

verus! {

/// The threads that a kernel is started with: a grid of blocks of `block` threads each, with
/// `shared_mem_bytes` of memory for each block.
#[derive(Clone, Copy, Debug, PartialEq, Eq, Structural)]
pub struct LaunchConfig {
    pub grid_x: u32,
    pub grid_y: u32,
    pub grid_z: u32,
    pub block: u32,
    pub shared_mem_bytes: u32,
}

/// A row of `blocks` blocks of `block` threads.
#[verifier::allow_in_spec]
pub fn row_of_blocks(blocks: u32, block: u32, shared_mem_bytes: u32) -> LaunchConfig
    returns
        (LaunchConfig { grid_x: blocks, grid_y: 1, grid_z: 1, block, shared_mem_bytes }),
{
    LaunchConfig { grid_x: blocks, grid_y: 1, grid_z: 1, block, shared_mem_bytes }
}

/// How many groups of `size` it takes for `n`.
pub open spec fn groups(n: int, size: int) -> int {
    (n + size - 1) / size
}

/// The groups suffice, and one less would not.
pub proof fn groups_cover(n: int, size: int)
    requires
        n > 0,
        size > 0,
    ensures
        groups(n, size) * size >= n,
        (groups(n, size) - 1) * size < n,
{
    let q = groups(n, size);
    assert(q * size >= n && (q - 1) * size < n) by (nonlinear_arith)
        requires
            size > 0,
            q == (n + size - 1) / size,
    ;
}

/// The threads for one element each of `n`.
pub open spec fn one_each(n: usize) -> Option<LaunchConfig> {
    if n <= LIMIT {
        Some(row_of_blocks(groups(n as int, 256) as u32, 256, 0))
    } else {
        None
    }
}

/// One thread for each of `n` elements, in blocks of 256.
pub fn launch_1d(n: usize) -> (r: Option<LaunchConfig>)
    ensures
        r == one_each(n),
{
    if n > LIMIT {
        return None;
    }
    let blocks: u32 = (n as u32 + 256 - 1) / 256;
    Some(row_of_blocks(blocks, 256, 0))
}

/// The first of `bs`, twice `bs`, and so on that is at least `n`.
pub open spec fn doubled_to(bs: int, n: int) -> int
    decreases
        if bs < n {
            n - bs
        } else {
            0
        },
{
    if bs <= 0 || bs >= n {
        bs
    } else {
        doubled_to(2 * bs, n)
    }
}

/// The least power of two, up to 1024, that is at least `n`.
pub open spec fn block_size(n: int) -> int {
    doubled_to(
        1,
        if n < 1024 {
            n
        } else {
            1024
        },
    )
}

/// A block is of a size that the device has: a power of two of at most 1024, and no less than
/// `n` where that is at most 1024.
pub proof fn block_size_fits(n: int)
    ensures
        1 <= block_size(n) <= 1024,
        n <= 1024 ==> block_size(n) >= n,
        exists|k: int| 0 <= k <= 10 && block_size(n) == #[trigger] two_to(k),
{
    let m = if n < 1024 {
        n
    } else {
        1024
    };
    assert(two_to(0) == 1);
    lemma_doubled(1, m, 0);
}

/// Two to the power `k`.
pub open spec fn two_to(k: int) -> int
    decreases k,
{
    if k <= 0 {
        1
    } else {
        2 * two_to(k - 1)
    }
}

/// Doubling from a power of two.
proof fn lemma_doubled(bs: int, n: int, k: int)
    requires
        0 <= k <= 10,
        bs == two_to(k),
        n <= 1024,
    ensures
        bs <= doubled_to(bs, n) <= 1024,
        doubled_to(bs, n) >= n,
        exists|j: int| 0 <= j <= 10 && doubled_to(bs, n) == #[trigger] two_to(j),
    decreases 10 - k,
{
    lemma_powers(k);
    if bs < n {
        lemma_powers(k + 1);
        assert(two_to(k + 1) == 2 * bs);
        if k == 10 {
            assert(false);
        }
        lemma_doubled(2 * bs, n, k + 1);
    }
}

/// The powers of two up to 1024.
proof fn lemma_powers(k: int)
    requires
        0 <= k <= 11,
    ensures
        two_to(k) >= 1,
        k <= 10 ==> two_to(k) <= 1024,
        k == 10 ==> two_to(k) == 1024,
{
    reveal_with_fuel(two_to, 12);
    if k == 0 {
    } else if k == 1 {
    } else if k == 2 {
    } else if k == 3 {
    } else if k == 4 {
    } else if k == 5 {
    } else if k == 6 {
    } else if k == 7 {
    } else if k == 8 {
    } else if k == 9 {
    } else if k == 10 {
    } else {
    }
}

/// Size of the block for rows of `n` elements.
fn block_for(n: usize) -> (r: u32)
    ensures
        r == block_size(n as int),
        r <= 1024,
{
    let m: u32 = if n < 1024 {
        n as u32
    } else {
        1024
    };
    let mut bs: u32 = 1;
    proof {
        block_size_fits(n as int);
    }
    while bs < m
        invariant
            1 <= bs <= 1024,
            m <= 1024,
            m == if n < 1024 {
                n as int
            } else {
                1024
            },
            block_size(n as int) <= 1024,
            doubled_to(bs as int, m as int) == block_size(n as int),
        decreases 2048 - bs,
    {
        proof {
            lemma_grows(2 * bs as int, m as int);
        }
        bs = 2 * bs;
    }
    bs
}

/// Doubling never makes less.
proof fn lemma_grows(bs: int, n: int)
    requires
        bs > 0,
    ensures
        doubled_to(bs, n) >= bs,
    decreases
        if bs < n {
            n - bs
        } else {
            0
        },
{
    if bs < n {
        lemma_grows(2 * bs, n);
    }
}

/// Number of patches that a kernel unfolds into, if it unfolds.
pub open spec fn patches(kernel: Kernel, i: Ints) -> Option<Option<usize>> {
    match kernel {
        Kernel::Im2col1dK1 => Some(gpu_tensor::size2(i.a, i.c)),
        Kernel::Im2col1dK3Dilation => Some(gpu_tensor::size2(i.a, i.d)),
        Kernel::Im2col8S4P21d => Some(gpu_tensor::size2(i.a, i.d)),
        Kernel::Im2colConvTranspose8S4P21d => Some(gpu_tensor::size2(i.a, i.d)),
        Kernel::Im2col8x1S4P2 => Some(gpu_tensor::size2(i.a, i.e)),
        Kernel::Im2col3x3S1P1 => Some(gpu_tensor::size3(i.a, i.e, i.f)),
        Kernel::Im2colConvTranspose8x1S4P2 => Some(gpu_tensor::size3(i.a, i.e, i.f)),
        _ => None,
    }
}

/// One block of 256 threads for each of `n`.
pub open spec fn block_each(n: Option<usize>, shared: u32) -> Option<LaunchConfig> {
    match n {
        Some(n) => Some(row_of_blocks(n as u32, 256, shared)),
        None => None,
    }
}

/// The threads of a kernel; none where it asks for more than the device has.
pub open spec fn config_of(l: Launch) -> Option<LaunchConfig> {
    match patches(l.kernel, l.ints) {
        Some(n) => block_each(n, 0),
        None => match l.kernel {
            Kernel::GroupNorm1 => match gpu_tensor::size2(l.ints.b, l.ints.c) {
                Some(n) => if l.ints.a <= LIMIT {
                    let bs = block_size(n as int) as u32;
                    Some(row_of_blocks(l.ints.a as u32, bs, (2 * bs * 4) as u32))
                } else {
                    None
                },
                None => None,
            },
            Kernel::LayerNorm => if l.ints.b <= LIMIT {
                block_each(Some(l.ints.b), 2048)
            } else {
                None
            },
            Kernel::AddFreqEmb => if l.ints.a <= LIMIT && l.ints.b <= LIMIT && l.ints.c <= LIMIT {
                Some(
                    LaunchConfig {
                        grid_x: l.ints.b as u32,
                        grid_y: l.ints.c as u32,
                        grid_z: l.ints.a as u32,
                        block: if l.ints.d < 256 {
                            l.ints.d as u32
                        } else {
                            256
                        },
                        shared_mem_bytes: 0,
                    },
                )
            } else {
                None
            },
            Kernel::SoftmaxScaled => match gpu_tensor::size2(l.ints.a, l.ints.b) {
                Some(rows) => Some(row_of_blocks(groups(rows as int, 8) as u32, 256, 0)),
                None => None,
            },
            Kernel::ConvertToSingle => if l.ints.a <= LIMIT {
                Some(row_of_blocks(groups(l.ints.a as int, 1024) as u32, 1024, 0))
            } else {
                None
            },
            Kernel::CopyPerHead => match gpu_tensor::size2(l.ints.b, l.ints.c) {
                Some(n) => one_each(n),
                None => None,
            },
            Kernel::ScatterPerHead => match gpu_tensor::size2(l.ints.b, l.ints.c) {
                Some(n) => one_each(n),
                None => None,
            },
            _ => one_each(l.len),
        },
    }
}

/// Every step of a good program can be started.
pub proof fn good_launches_start(s: Seq<Step>, l: Launch)
    requires
        program::launch_ok(s, l),
    ensures
        config_of(l) is Some,
{
    reveal(program::launch_ok);
}

/// One block of 256 threads for each of `n`.
fn blocks_for(n: Option<usize>, shared: u32) -> (r: Option<LaunchConfig>)
    requires
        n matches Some(k) ==> k <= LIMIT,
    ensures
        r == block_each(n, shared),
{
    match n {
        Some(n) => Some(row_of_blocks(n as u32, 256, shared)),
        None => None,
    }
}

impl Launch {
    /// The threads of the kernel; none where it asks for more than the device has.
    pub fn config(&self) -> (r: Option<LaunchConfig>)
        ensures
            r == config_of(*self),
    {
        let i: Ints = self.ints;
        match self.kernel {
            Kernel::Im2col1dK1 => blocks_for(gpu_tensor::count2(i.a, i.c), 0),
            Kernel::Im2col1dK3Dilation => blocks_for(gpu_tensor::count2(i.a, i.d), 0),
            Kernel::Im2col8S4P21d => blocks_for(gpu_tensor::count2(i.a, i.d), 0),
            Kernel::Im2colConvTranspose8S4P21d => blocks_for(gpu_tensor::count2(i.a, i.d), 0),
            Kernel::Im2col8x1S4P2 => blocks_for(gpu_tensor::count2(i.a, i.e), 0),
            Kernel::Im2col3x3S1P1 => blocks_for(gpu_tensor::count3(i.a, i.e, i.f), 0),
            Kernel::Im2colConvTranspose8x1S4P2 => blocks_for(gpu_tensor::count3(i.a, i.e, i.f), 0),
            Kernel::GroupNorm1 => {
                match gpu_tensor::count2(i.b, i.c) {
                    Some(n) => {
                        if i.a > LIMIT {
                            return None;
                        }
                        let bs: u32 = block_for(n);
                        Some(row_of_blocks(i.a as u32, bs, 2 * bs * 4))
                    },
                    None => None,
                }
            },
            Kernel::LayerNorm => {
                if i.b <= LIMIT {
                    blocks_for(Some(i.b), 2048)
                } else {
                    None
                }
            },
            Kernel::AddFreqEmb => {
                if i.a <= LIMIT && i.b <= LIMIT && i.c <= LIMIT {
                    let block: u32 = if i.d < 256 {
                        i.d as u32
                    } else {
                        256
                    };
                    Some(
                        LaunchConfig {
                            grid_x: i.b as u32,
                            grid_y: i.c as u32,
                            grid_z: i.a as u32,
                            block,
                            shared_mem_bytes: 0,
                        },
                    )
                } else {
                    None
                }
            },
            Kernel::SoftmaxScaled => {
                match gpu_tensor::count2(i.a, i.b) {
                    Some(rows) => {
                        let blocks: u32 = (rows as u32 + 8 - 1) / 8;
                        Some(row_of_blocks(blocks, 256, 0))
                    },
                    None => None,
                }
            },
            Kernel::ConvertToSingle => {
                if i.a <= LIMIT {
                    let blocks: u32 = (i.a as u32 + 1024 - 1) / 1024;
                    Some(row_of_blocks(blocks, 1024, 0))
                } else {
                    None
                }
            },
            Kernel::CopyPerHead => {
                match gpu_tensor::count2(i.b, i.c) {
                    Some(n) => launch_1d(n),
                    None => None,
                }
            },
            Kernel::ScatterPerHead => {
                match gpu_tensor::count2(i.b, i.c) {
                    Some(n) => launch_1d(n),
                    None => None,
                }
            },
            _ => launch_1d(self.len),
        }
    }
}

/// An argument of a kernel.
#[derive(Clone, Copy, Debug, PartialEq, Eq, Structural)]
pub enum Argument {
    /// The value that the kernel makes.
    Result,
    /// A value that it reads.
    Value(usize),
    /// An integer.
    Int(usize),
    /// Another number.
    Factor(Factor),
}

/// The value at position `j` among those that a kernel reads.
pub open spec fn read_at(l: Launch, j: int) -> usize {
    if j == 0 {
        l.x
    } else if j == 1 {
        l.y
    } else {
        l.z
    }
}

/// The integer at position `j`.
pub open spec fn int_at(i: Ints, j: int) -> usize {
    if j == 0 {
        i.a
    } else if j == 1 {
        i.b
    } else if j == 2 {
        i.c
    } else if j == 3 {
        i.d
    } else if j == 4 {
        i.e
    } else if j == 5 {
        i.f
    } else if j == 6 {
        i.g
    } else {
        i.h
    }
}

/// The values that a kernel reads, from `j` on.
pub open spec fn reads_from(l: Launch, j: int) -> Seq<Argument>
    decreases l.reads - j,
{
    if j >= l.reads {
        seq![]
    } else {
        seq![Argument::Value(read_at(l, j))] + reads_from(l, j + 1)
    }
}

/// The integers that a kernel takes, from `j` on.
pub open spec fn ints_from(i: Ints, j: int) -> Seq<Argument>
    decreases i.n - j,
{
    if j >= i.n {
        seq![]
    } else {
        seq![Argument::Int(int_at(i, j))] + ints_from(i, j + 1)
    }
}

/// The arguments of a kernel in order: the value that it makes, the values that it reads but
/// for one that it works on in place, the integers, and the factor if there is one.
pub open spec fn arguments_of(l: Launch) -> Seq<Argument> {
    seq![Argument::Result] + reads_from(
        l,
        if program::works_in_place(l.kernel) {
            1
        } else {
            0
        },
    ) + ints_from(l.ints, 0) + match l.factor {
        Factor::Absent => seq![],
        f => seq![Argument::Factor(f)],
    }
}

impl Launch {
    /// The arguments of the kernel, in order.
    pub fn arguments(&self) -> (r: Vec<Argument>)
        ensures
            r@ == arguments_of(*self),
    {
        let mut out: Vec<Argument> = Vec::new();
        out.push(Argument::Result);
        let first: usize = if self.kernel.updates() {
            1
        } else {
            0
        };
        let ghost start = out@;
        let mut j: usize = first;
        while j < self.reads
            invariant
                out@ + reads_from(*self, j as int) == start + reads_from(*self, first as int),
            decreases self.reads - j,
        {
            let id: usize = if j == 0 {
                self.x
            } else if j == 1 {
                self.y
            } else {
                self.z
            };
            let ghost before = out@;
            out.push(Argument::Value(id));
            j = j + 1;
            assert(out@ + reads_from(*self, j as int) =~= before + reads_from(*self, j - 1));
        }
        let ghost middle = out@;
        assert(middle =~= start + reads_from(*self, first as int));
        let i: Ints = self.ints;
        let mut k: usize = 0;
        while k < i.n
            invariant
                out@ + ints_from(i, k as int) == middle + ints_from(i, 0),
            decreases i.n - k,
        {
            let v: usize = if k == 0 {
                i.a
            } else if k == 1 {
                i.b
            } else if k == 2 {
                i.c
            } else if k == 3 {
                i.d
            } else if k == 4 {
                i.e
            } else if k == 5 {
                i.f
            } else if k == 6 {
                i.g
            } else {
                i.h
            };
            let ghost before = out@;
            out.push(Argument::Int(v));
            k = k + 1;
            assert(out@ + ints_from(i, k as int) =~= before + ints_from(i, k - 1));
        }
        assert(out@ =~= middle + ints_from(i, 0));
        match self.factor {
            Factor::Absent => {},
            f => {
                out.push(Argument::Factor(f));
            },
        }
        assert(out@ =~= arguments_of(*self));
        out
    }
}

/// Whether a step reads the value `id`.
pub open spec fn reads(s: Step, id: int) -> bool {
    match s {
        Step::Launch(l) => (l.reads >= 1 && l.x == id) || (l.reads >= 2 && l.y == id) || (l.reads >= 3
            && l.z == id),
        Step::Gemm(g) => g.first == id || g.second == id,
        Step::BatchedGemm(g) => g.gemm.first == id || g.gemm.second == id,
        _ => false,
    }
}

/// `last` is the last step that reads the value `id`, or the one that makes it where none does.
pub open spec fn is_last_use(s: Seq<Step>, id: int, last: int) -> bool {
    &&& id <= last
    &&& last == id || last < s.len() && reads(s[last], id)
    &&& forall|j: int| 0 <= j < s.len() && reads(#[trigger] s[j], id) ==> j <= last
}

/// Notes that step `j` reads the value `id`.
fn note(last: &mut Vec<usize>, id: usize, j: usize)
    ensures
        final(last)@ == (if id < old(last)@.len() && old(last)@[id as int] < j {
            old(last)@.update(id as int, j)
        } else {
            old(last)@
        }),
{
    if id < last.len() {
        if last[id] < j {
            last[id] = j;
        }
    }
}

/// What is known of the last uses after the first `j` steps.
pub open spec fn are_last_uses(s: Seq<Step>, last: Seq<usize>, j: int) -> bool {
    &&& last.len() == s.len()
    &&& forall|i: int|
        #![trigger last[i]]
        0 <= i < last.len() ==> {
            &&& i <= last[i]
            &&& last[i] == i || last[i] < j && reads(s[last[i] as int], i)
            &&& forall|k: int| 0 <= k < j && reads(#[trigger] s[k], i) ==> k <= last[i]
        }
}

impl Program {
    /// For each value the last step that uses it: afterwards its memory is free, unless it is a
    /// result.
    pub fn last_uses(&self) -> (r: Vec<usize>)
        ensures
            r@.len() == self@.len(),
            forall|i: int|
                0 <= i < r@.len() ==> is_last_use(self@, i, (#[trigger] r@[i]) as int),
    {
        let n: usize = self.steps.len();
        let mut last: Vec<usize> = Vec::new();
        let mut i: usize = 0;
        while i < n
            invariant
                i <= n,
                n == self@.len(),
                last@.len() == i,
                forall|k: int| 0 <= k < i ==> (#[trigger] last@[k]) == k,
            decreases n - i,
        {
            last.push(i);
            i = i + 1;
        }
        let mut j: usize = 0;
        while j < n
            invariant
                j <= n,
                n == self@.len(),
                are_last_uses(self@, last@, j as int),
            decreases n - j,
        {
            let s: Step = self.steps[j];
            let ghost before = last@;
            match s {
                Step::Launch(l) => {
                    if l.reads >= 1 {
                        note(&mut last, l.x, j);
                    }
                    if l.reads >= 2 {
                        note(&mut last, l.y, j);
                    }
                    if l.reads >= 3 {
                        note(&mut last, l.z, j);
                    }
                },
                Step::Gemm(g) => {
                    note(&mut last, g.first, j);
                    note(&mut last, g.second, j);
                },
                Step::BatchedGemm(g) => {
                    note(&mut last, g.gemm.first, j);
                    note(&mut last, g.gemm.second, j);
                },
                _ => {},
            }
            proof {
                assert forall|i: int| #![trigger last@[i]] 0 <= i < last@.len() implies {
                    &&& i <= last@[i]
                    &&& last@[i] == i || last@[i] < j + 1 && reads(self@[last@[i] as int], i)
                    &&& forall|k: int|
                        0 <= k < j + 1 && reads(#[trigger] self@[k], i) ==> k <= last@[i]
                } by {
                    let b = before[i];
                    assert(last@[i] == (if reads(s, i) && before[i] < j {
                        j
                    } else {
                        before[i]
                    }));
                    assert forall|k: int|
                        0 <= k < j + 1 && reads(#[trigger] self@[k], i) implies k <= last@[i] by {
                        if k == j {
                            assert(self@[k] == s);
                        }
                    }
                }
            }
            j = j + 1;
        }
        proof {
            assert forall|i: int| 0 <= i < last@.len() implies is_last_use(
                self@,
                i,
                (#[trigger] last@[i]) as int,
            ) by {}
        }
        last
    }
}

} // verus!
