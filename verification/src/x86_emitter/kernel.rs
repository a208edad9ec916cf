//! Compiled kernels and the cache that holds them.

use crate::x86_emitter::assembler;
use crate::x86_emitter::inst::Arith;
use crate::x86_emitter::lower;
use crate::x86_emitter::lower::machine_code_of;
use crate::x86_emitter::program;
use crate::x86_emitter::program::Program;
use vstd::prelude::*;

verus! {

/// The machine code of a kernel, with the dimensions that were built into it.
#[derive(Debug)]
pub struct CompiledKernel {
    /// Machine code.
    pub code: Vec<u8>,
    /// Rows of the result.
    pub m: usize,
    /// Columns of the result.
    pub n: usize,
    /// Length of the inner dimension.
    pub k: usize,
}

/// `r` holds the machine code of the program `p`, and is there where the program has one.
pub open spec fn compiles(
    r: Option<CompiledKernel>,
    p: program::Asm,
    m: usize,
    n: usize,
    k: usize,
) -> bool {
    match assembler::machine_code(lower::lines_of(p.lines), lower::BASE_ADDRESS) {
        Some(code) => r matches Some(x) && x.code@ == code && x.m == m && x.n == n && x.k == k,
        None => r is None,
    }
}

impl CompiledKernel {
    /// The dimensions that were built in; zero for a kernel that takes any.
    pub fn compiled_dims(&self) -> (r: (usize, usize, usize))
        ensures
            r == (self.m, self.n, self.k),
    {
        (self.m, self.n, self.k)
    }

    /// Machine code with the dimensions that were built into it.
    pub fn from_code(code: Vec<u8>, m: usize, n: usize, k: usize) -> (r: CompiledKernel)
        ensures
            r.code == code,
            r.m == m,
            r.n == n,
            r.k == k,
    {
        CompiledKernel { code, m, n, k }
    }

    /// The kernel of a complete program.
    pub(crate) fn finalize(p: &Program, m: usize, n: usize, k: usize) -> (r: Option<CompiledKernel>)
        requires
            lower::is_complete(p@),
        ensures
            compiles(r, p@, m, n, k),
    {
        match machine_code_of(p) {
            Some(code) => Some(CompiledKernel::from_code(code, m, n, k)),
            None => None,
        }
    }
}

/// The size of the memory that holds `len` bytes of code: whole pages.
pub open spec fn whole_pages(len: int) -> int {
    (len + 4095) / 4096 * 4096
}

/// The size of the memory that holds `len` bytes of code.
pub fn exec_memory_size(len: usize) -> (r: usize)
    requires
        len <= usize::MAX - 4095,
    ensures
        r == whole_pages(len as int),
        len <= r < len + 4096,
{
    let pages: usize = (len + 4095) / 4096;
    pages * 4096
}

/// The arithmetic that an operation number of an elementwise kernel stands for.
#[verifier::allow_in_spec]
pub fn arith_of(op: u8) -> Option<Arith>
    returns
        (match op {
            0 => Some(Arith::Add),
            1 => Some(Arith::Sub),
            2 => Some(Arith::Mul),
            3 => Some(Arith::Div),
            4 => Some(Arith::Min),
            5 => Some(Arith::Max),
            _ => None,
        }),
{
    match op {
        0 => Some(Arith::Add),
        1 => Some(Arith::Sub),
        2 => Some(Arith::Mul),
        3 => Some(Arith::Div),
        4 => Some(Arith::Min),
        5 => Some(Arith::Max),
        _ => None,
    }
}

/// The arithmetic that an operation number of a reduction stands for.
#[verifier::allow_in_spec]
pub fn reduce_arith_of(op: u8) -> Option<Arith>
    returns
        (match op {
            0 => Some(Arith::Add),
            1 => Some(Arith::Max),
            2 => Some(Arith::Min),
            _ => None,
        }),
{
    match op {
        0 => Some(Arith::Add),
        1 => Some(Arith::Max),
        2 => Some(Arith::Min),
        _ => None,
    }
}

/// Kernels by operation number.
#[derive(Debug)]
pub struct KernelCache<K> {
    /// The kernel of each operation, where it was compiled.
    pub slots: Vec<Option<K>>,
}

impl<K> KernelCache<K> {
    /// The kernel that the cache holds for an operation.
    pub open spec fn holds(self, op: u8) -> Option<K> {
        if op < self.slots@.len() {
            self.slots@[op as int]
        } else {
            None
        }
    }

    /// A cache without kernels.
    pub fn new() -> (r: KernelCache<K>)
        ensures
            forall|op: u8| #[trigger] r.holds(op) is None,
    {
        KernelCache { slots: Vec::new() }
    }

    /// The kernel of an operation, where it was compiled.
    pub fn get(&self, op: u8) -> (r: Option<&K>)
        ensures
            r is Some <==> self.holds(op) is Some,
            r matches Some(k) ==> Some(*k) == self.holds(op),
    {
        if (op as usize) < self.slots.len() {
            match &self.slots[op as usize] {
                Some(k) => Some(k),
                None => None,
            }
        } else {
            None
        }
    }

    /// Keeps a kernel for an operation, unless there is one. The others stay.
    pub fn put(&mut self, op: u8, kernel: K)
        ensures
            old(self).holds(op) is None ==> final(self).holds(op) == Some(kernel),
            old(self).holds(op) is Some ==> final(self).holds(op) == old(self).holds(op),
            forall|o: u8| o != op ==> #[trigger] final(self).holds(o) == old(self).holds(o),
    {
        while self.slots.len() <= op as usize
            invariant
                forall|o: u8| #[trigger] self.holds(o) == old(self).holds(o),
            decreases 256 - self.slots@.len(),
        {
            let ghost before = *self;
            self.slots.push(None);
            assert forall|o: u8| #[trigger] self.holds(o) == old(self).holds(o) by {
                assert(before.holds(o) == old(self).holds(o));
            }
        }
        if self.slots[op as usize].is_none() {
            let ghost before = *self;
            assert(before.holds(op) == old(self).holds(op));
            self.slots.set(op as usize, Some(kernel));
            assert forall|o: u8| o != op implies #[trigger] self.holds(o) == old(self).holds(o) by {
                assert(before.holds(o) == old(self).holds(o));
            }
        } else {
            assert(self.holds(op) == old(self).holds(op));
        }
    }
}

} // verus!
