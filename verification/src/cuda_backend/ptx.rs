//! Generation of kernel text.

use crate::cuda_backend::launch;
use crate::cuda_backend::launch::{some_blocks, LaunchConfig};
use crate::cuda_backend::ptx_text;
use crate::text;
use crate::types::{BinOpKind, Instr};
use vstd::prelude::*;
use vstd::utf8::encode_utf8;

verus! {

/// One piece of kernel text.
#[derive(Debug, Clone, Copy)]
pub enum Piece {
    /// Fixed text.
    Text(&'static str),
    /// A number, printed in decimal.
    Number(u64),
}

/// What a piece prints.
pub open spec fn piece_text(p: Piece) -> Seq<char> {
    match p {
        Piece::Text(s) => s@,
        Piece::Number(n) => text::decimal(n as nat),
    }
}

/// What a list of pieces prints.
pub open spec fn pieces_text(ps: Seq<Piece>) -> Seq<char>
    decreases ps.len(),
{
    if ps.len() == 0 {
        Seq::empty()
    } else {
        pieces_text(ps.drop_last()) + piece_text(ps.last())
    }
}

/// Appends what `ps` prints to `s`.
pub fn push_pieces(s: &mut String, ps: &Vec<Piece>)
    ensures
        final(s)@ == old(s)@ + pieces_text(ps@),
{
    let mut i: usize = 0;
    while i < ps.len()
        invariant
            i <= ps.len(),
            s@ == old(s)@ + pieces_text(ps@.take(i as int)),
        decreases ps.len() - i,
    {
        match ps[i] {
            Piece::Text(t) => s.append(t),
            Piece::Number(n) => text::push_decimal(s, n),
        }
        i += 1;
        proof {
            let t = ps@.take(i as int);
            assert(t.drop_last() =~= ps@.take(i - 1));
            assert(s@ =~= old(s)@ + pieces_text(t));
        }
    }
    assert(ps@.take(i as int) =~= ps@);
}

/// Number of floating-point operations of a kernel, as a product.
#[derive(Debug, Clone, Copy, PartialEq, Eq, Structural)]
pub struct FlopCount {
    /// Operations per item.
    pub factor: u32,
    /// First extent.
    pub m: usize,
    /// Second extent.
    pub n: usize,
    /// Third extent.
    pub k: usize,
}

/// A kernel ready to be compiled and launched.
#[derive(Debug)]
pub struct CudaCompiledKernel {
    /// The kernel text.
    pub ptx_source: String,
    /// Kernel name within the text.
    pub kernel_name: String,
    /// Launch configuration.
    pub launch_config: LaunchConfig,
    /// Size of the kernel text in bytes.
    pub ptx_size: usize,
    /// Operations that the kernel performs; the factor is zero where they are not estimated.
    pub flops: FlopCount,
}

/// No estimate of the operations.
#[verifier::allow_in_spec]
pub fn no_estimate() -> FlopCount
    returns
        (FlopCount { factor: 0, m: 0, n: 0, k: 0 }),
{
    FlopCount { factor: 0, m: 0, n: 0, k: 0 }
}

/// `kernel` has the given text, name and estimate, and its size is that of the text.
pub open spec fn describes(
    kernel: CudaCompiledKernel,
    source: Seq<char>,
    name: Seq<char>,
    flops: FlopCount,
) -> bool {
    &&& kernel.ptx_source@ == source
    &&& kernel.kernel_name@ == name
    &&& kernel.ptx_size == encode_utf8(source).len() as usize
    &&& kernel.flops == flops
}

/// Puts a kernel together; its size is that of the text in bytes.
fn kernel_of(source: String, name: &str, launch_config: LaunchConfig, flops: FlopCount) -> (r:
    CudaCompiledKernel)
    ensures
        describes(r, source@, name@, flops),
        r.launch_config == launch_config,
{
    let ptx_size: usize = source.as_str().len();
    CudaCompiledKernel {
        ptx_source: source,
        kernel_name: String::from_str(name),
        launch_config,
        ptx_size,
        flops,
    }
}

/// The instruction that applies `op` to two elements; an operation without one adds.
#[verifier::allow_in_spec]
pub fn elementwise_mnemonic(op: BinOpKind) -> &'static str
    returns
        (match op {
            BinOpKind::Sub => "sub.f32",
            BinOpKind::Mul => "mul.f32",
            BinOpKind::Div => "div.rn.f32",
            BinOpKind::Min => "min.f32",
            BinOpKind::Max => "max.f32",
            _ => "add.f32",
        }),
{
    match op {
        BinOpKind::Sub => "sub.f32",
        BinOpKind::Mul => "mul.f32",
        BinOpKind::Div => "div.rn.f32",
        BinOpKind::Min => "min.f32",
        BinOpKind::Max => "max.f32",
        _ => "add.f32",
    }
}

/// The instruction that a reduction by `op` combines with; an operation without one adds.
#[verifier::allow_in_spec]
pub fn reduction_mnemonic(op: BinOpKind) -> &'static str
    returns
        (match op {
            BinOpKind::Min => "min.f32",
            BinOpKind::Max => "max.f32",
            _ => "add.f32",
        }),
{
    match op {
        BinOpKind::Min => "min.f32",
        BinOpKind::Max => "max.f32",
        _ => "add.f32",
    }
}

/// What a thread without an element brings into a reduction by `op`, in PTX: positive infinity
/// for the smallest, negative infinity for the largest, and otherwise zero.
#[verifier::allow_in_spec]
pub fn reduction_identity(op: BinOpKind) -> &'static str
    returns
        (match op {
            BinOpKind::Min => "0f7F800000",
            BinOpKind::Max => "0fFF800000",
            _ => "0.0",
        }),
{
    match op {
        BinOpKind::Min => "0f7F800000",
        BinOpKind::Max => "0fFF800000",
        _ => "0.0",
    }
}

/// The language version for a target architecture.
pub open spec fn version_for(sm_arch: Seq<char>) -> Seq<char> {
    if sm_arch == "sm_90"@ || sm_arch == "sm_100"@ {
        "8.5"@
    } else if sm_arch == "sm_80"@ || sm_arch == "sm_86"@ || sm_arch == "sm_89"@ || sm_arch
        == "sm_90a"@ {
        "8.0"@
    } else if sm_arch == "sm_75"@ {
        "7.5"@
    } else {
        "7.0"@
    }
}

/// The lines in front of the kernel `name`.
pub open spec fn header_text(name: Seq<char>, version: Seq<char>, target: Seq<char>) -> Seq<char> {
    "// PTX kernel: "@ + name + ptx_text::HEADER_CREDIT@ + version + "\n.target "@ + target
        + "\n.address_size 64\n\n"@
}

/// The body of the elementwise kernel for `op`.
pub open spec fn elementwise_pieces(op: BinOpKind) -> Seq<Piece> {
    seq![
        Piece::Text(ptx_text::ELEMENTWISE_1),
        Piece::Text(elementwise_mnemonic(op)),
        Piece::Text(ptx_text::ELEMENTWISE_2),
    ]
}

/// The body of the tiled matrix product kernel.
pub open spec fn matmul_pieces(tile_m: usize, tile_n: usize, tile_k: usize) -> Seq<Piece> {
    seq![
        Piece::Text(ptx_text::MATMUL_1),
        Piece::Number((tile_m * tile_k * 4) as u64),
        Piece::Text(ptx_text::MATMUL_2),
        Piece::Number((tile_k * tile_n * 4) as u64),
        Piece::Text(ptx_text::MATMUL_3),
        Piece::Number(tile_m as u64),
        Piece::Text(ptx_text::MATMUL_4),
        Piece::Number(tile_m as u64),
        Piece::Text(ptx_text::MATMUL_5),
        Piece::Number(tile_n as u64),
        Piece::Text(ptx_text::MATMUL_6),
        Piece::Number(tile_n as u64),
        Piece::Text(ptx_text::MATMUL_7),
        Piece::Number(tile_k as u64),
        Piece::Text(ptx_text::MATMUL_8),
        Piece::Number(tile_n as u64),
        Piece::Text(ptx_text::MATMUL_9),
        Piece::Number(tile_k as u64),
        Piece::Text(ptx_text::MATMUL_10),
        Piece::Number(tile_n as u64),
        Piece::Text(ptx_text::MATMUL_11),
        Piece::Number(tile_k as u64),
        Piece::Text(ptx_text::MATMUL_12),
        Piece::Number(tile_k as u64),
        Piece::Text(ptx_text::MATMUL_13),
    ]
}

/// The body of the fused multiply-add kernel.
pub open spec fn fma_pieces() -> Seq<Piece> {
    seq![
        Piece::Text(ptx_text::FMA_1),
    ]
}

/// The body of the reduction kernel for `op`.
pub open spec fn reduction_pieces(op: BinOpKind) -> Seq<Piece> {
    seq![
        Piece::Text(ptx_text::REDUCTION_1),
        Piece::Number(1024),
        Piece::Text(ptx_text::REDUCTION_2),
        Piece::Text(reduction_identity(op)),
        Piece::Text(ptx_text::REDUCTION_3),
        Piece::Number(256),
        Piece::Text(ptx_text::REDUCTION_4),
        Piece::Number(256),
        Piece::Text(ptx_text::REDUCTION_5),
        Piece::Text(reduction_mnemonic(op)),
        Piece::Text(ptx_text::REDUCTION_6),
    ]
}

/// The body of the five-point stencil kernel.
pub open spec fn stencil_pieces() -> Seq<Piece> {
    seq![
        Piece::Text(ptx_text::STENCIL_1),
    ]
}

/// The body of the convolution kernel, for `eff_m` output positions and `eff_k` inputs each.
pub open spec fn conv2d_pieces(eff_m: u64, eff_k: u64) -> Seq<Piece> {
    seq![
        Piece::Text(ptx_text::CONV2D_1),
        Piece::Number(eff_m),
        Piece::Text(ptx_text::CONV2D_2),
        Piece::Number(eff_k),
        Piece::Text(ptx_text::CONV2D_3),
    ]
}

/// The first `count` parameter declarations of an instruction kernel.
pub open spec fn param_lines(count: nat) -> Seq<char>
    decreases count,
{
    if count == 0 {
        Seq::empty()
    } else {
        param_lines((count - 1) as nat) + "    .param .u64 param_"@ + text::decimal(
            (count - 1) as nat,
        ) + ",\n"@
    }
}

/// The line that an instruction contributes to an instruction kernel.
pub open spec fn instr_line(i: Instr) -> Seq<char> {
    match i {
        Instr::LoadF64(slot, _) => "    // LoadF64(slot="@ + text::decimal(slot as nat)
            + ", ...) — load from param\n"@,
        Instr::BinOp(dst, op, lhs, rhs) => "    // BinOp: slot"@ + text::decimal(dst as nat)
            + " = slot"@ + text::decimal(lhs as nat) + " "@ + elementwise_mnemonic(op)@ + " slot"@
            + text::decimal(rhs as nat) + "\n"@,
        Instr::UnOp(_, _, _) => "    // UnOp\n"@,
        _ => Seq::empty(),
    }
}

/// The lines of a list of instructions.
pub open spec fn instr_lines(s: Seq<Instr>) -> Seq<char>
    decreases s.len(),
{
    if s.len() == 0 {
        Seq::empty()
    } else {
        instr_lines(s.drop_last()) + instr_line(s.last())
    }
}

/// The body of the kernel of an instruction trace.
pub open spec fn ir_body(s: Seq<Instr>, param_count: nat) -> Seq<char> {
    ".entry symplex_ir_kernel(\n"@ + param_lines(param_count) + ptx_text::IR_PROLOGUE@
        + instr_lines(s) + "\n    ret;\n}\n"@
}

fn same_text(a: &str, b: &str) -> (r: bool)
    ensures
        r == (a@ == b@),
{
    String::from_str(a) == String::from_str(b)
}

fn push_instr_line(s: &mut String, i: &Instr)
    ensures
        final(s)@ == old(s)@ + instr_line(*i),
{
    match *i {
        Instr::LoadF64(slot, _) => {
            s.append("    // LoadF64(slot=");
            text::push_decimal(s, slot as u64);
            s.append(", ...) — load from param\n");
        },
        Instr::BinOp(dst, op, lhs, rhs) => {
            s.append("    // BinOp: slot");
            text::push_decimal(s, dst as u64);
            s.append(" = slot");
            text::push_decimal(s, lhs as u64);
            s.append(" ");
            s.append(elementwise_mnemonic(op));
            s.append(" slot");
            text::push_decimal(s, rhs as u64);
            s.append("\n");
        },
        Instr::UnOp(_, _, _) => s.append("    // UnOp\n"),
        _ => {},
    }
    assert(s@ =~= old(s)@ + instr_line(*i));
}

/// Writes kernels for one target architecture.
pub struct PtxGenerator {
    /// Target architecture.
    target_arch: String,
    /// Language version.
    ptx_version: String,
}

impl PtxGenerator {
    /// The target architecture.
    pub closed spec fn target(self) -> Seq<char> {
        self.target_arch@
    }

    /// The language version.
    pub closed spec fn version(self) -> Seq<char> {
        self.ptx_version@
    }

    /// The text of the kernel `name` with the given body.
    pub open spec fn source(self, name: Seq<char>, body: Seq<char>) -> Seq<char> {
        header_text(name, self.version(), self.target()) + body
    }

    /// A generator for the given architecture.
    pub fn new(sm_arch: &str) -> (r: PtxGenerator)
        ensures
            r.target() == sm_arch@,
            r.version() == version_for(sm_arch@),
    {
        let version = if same_text(sm_arch, "sm_90") || same_text(sm_arch, "sm_100") {
            "8.5"
        } else if same_text(sm_arch, "sm_80") || same_text(sm_arch, "sm_86") || same_text(
            sm_arch,
            "sm_89",
        ) || same_text(sm_arch, "sm_90a") {
            "8.0"
        } else if same_text(sm_arch, "sm_75") {
            "7.5"
        } else {
            "7.0"
        };
        PtxGenerator {
            target_arch: String::from_str(sm_arch),
            ptx_version: String::from_str(version),
        }
    }

    /// A generator for the default architecture.
    pub fn default_arch() -> (r: PtxGenerator)
        ensures
            r.target() == "sm_80"@,
            r.version() == version_for("sm_80"@),
    {
        Self::new("sm_80")
    }

    fn emit_header(&self, kernel_name: &str) -> (r: String)
        ensures
            r@ == header_text(kernel_name@, self.version(), self.target()),
    {
        let mut s = String::from_str("// PTX kernel: ");
        s.append(kernel_name);
        s.append(ptx_text::HEADER_CREDIT);
        s.append(self.ptx_version.as_str());
        s.append("\n.target ");
        s.append(self.target_arch.as_str());
        s.append("\n.address_size 64\n\n");
        s
    }

    /// The kernel text of `name` with the body that `body` prints.
    fn emit(&self, kernel_name: &str, body: &Vec<Piece>) -> (r: String)
        ensures
            r@ == self.source(kernel_name@, pieces_text(body@)),
    {
        let mut s = self.emit_header(kernel_name);
        push_pieces(&mut s, body);
        s
    }

    /// The kernel that applies `op` to `n` pairs of elements.
    pub fn gen_elementwise(&self, op: BinOpKind, n: usize) -> (r: CudaCompiledKernel)
        requires
            launch::blocks_fit(n, 256),
        ensures
            describes(
                r,
                self.source("symplex_elementwise"@, pieces_text(elementwise_pieces(op))),
                "symplex_elementwise"@,
                no_estimate(),
            ),
            r.launch_config.grid.0 == launch::blocks_for((n as u32) as int, 256),
            r.launch_config.grid.1 == 1,
            r.launch_config.grid.2 == 1,
            r.launch_config.block == (256u32, 1u32, 1u32),
            r.launch_config.shared_mem_bytes == 0,
    {
        let body: Vec<Piece> =
            vec![
                Piece::Text(ptx_text::ELEMENTWISE_1),
                Piece::Text(elementwise_mnemonic(op)),
                Piece::Text(ptx_text::ELEMENTWISE_2),
            ];
        assert(body@ =~= elementwise_pieces(op));
        let source = self.emit("symplex_elementwise", &body);
        kernel_of(source, "symplex_elementwise", LaunchConfig::elementwise(n, 256), no_estimate())
    }

    /// The kernel of the tiled product of an `m` by `k` and a `k` by `n` matrix.
    pub fn gen_matmul(
        &self,
        m: usize,
        n: usize,
        k: usize,
        tile_m: usize,
        tile_n: usize,
        tile_k: usize,
    ) -> (r: CudaCompiledKernel)
        requires
            launch::blocks_fit(n, tile_n as u32),
            launch::blocks_fit(m, tile_m as u32),
            tile_m * tile_n * 4 * 2 <= usize::MAX,
            tile_m * tile_k * 4 + tile_k * tile_n * 4 <= usize::MAX,
        ensures
            describes(
                r,
                self.source("symplex_matmul"@, pieces_text(matmul_pieces(tile_m, tile_n, tile_k))),
                "symplex_matmul"@,
                (FlopCount { factor: 2, m, n, k }),
            ),
            r.launch_config.grid.0 == launch::blocks_for((n as u32) as int, (tile_n as u32) as int),
            r.launch_config.grid.1 == launch::blocks_for((m as u32) as int, (tile_m as u32) as int),
            r.launch_config.grid.2 == 1,
            r.launch_config.block == (32u32, 1u32, 1u32),
            r.launch_config.shared_mem_bytes == tile_m * tile_n * 4 * 2,
    {
        proof {
            assert(tile_m * tile_k >= 0) by (nonlinear_arith);
            assert(tile_k * tile_n >= 0) by (nonlinear_arith);
        }
        let body: Vec<Piece> =
            vec![
                Piece::Text(ptx_text::MATMUL_1),
                Piece::Number((tile_m * tile_k * 4) as u64),
                Piece::Text(ptx_text::MATMUL_2),
                Piece::Number((tile_k * tile_n * 4) as u64),
                Piece::Text(ptx_text::MATMUL_3),
                Piece::Number(tile_m as u64),
                Piece::Text(ptx_text::MATMUL_4),
                Piece::Number(tile_m as u64),
                Piece::Text(ptx_text::MATMUL_5),
                Piece::Number(tile_n as u64),
                Piece::Text(ptx_text::MATMUL_6),
                Piece::Number(tile_n as u64),
                Piece::Text(ptx_text::MATMUL_7),
                Piece::Number(tile_k as u64),
                Piece::Text(ptx_text::MATMUL_8),
                Piece::Number(tile_n as u64),
                Piece::Text(ptx_text::MATMUL_9),
                Piece::Number(tile_k as u64),
                Piece::Text(ptx_text::MATMUL_10),
                Piece::Number(tile_n as u64),
                Piece::Text(ptx_text::MATMUL_11),
                Piece::Number(tile_k as u64),
                Piece::Text(ptx_text::MATMUL_12),
                Piece::Number(tile_k as u64),
                Piece::Text(ptx_text::MATMUL_13),
            ];
        assert(body@ =~= matmul_pieces(tile_m, tile_n, tile_k));
        let source = self.emit("symplex_matmul", &body);
        let config = LaunchConfig::matmul(m, n, tile_m, tile_n);
        kernel_of(source, "symplex_matmul", config, FlopCount { factor: 2, m, n, k })
    }

    /// The kernel of the fused multiply-add of `n` triples of elements.
    pub fn gen_fma(&self, n: usize) -> (r: CudaCompiledKernel)
        requires
            launch::blocks_fit(n, 256),
        ensures
            describes(
                r,
                self.source("symplex_fma"@, pieces_text(fma_pieces())),
                "symplex_fma"@,
                no_estimate(),
            ),
            r.launch_config.grid.0 == launch::blocks_for((n as u32) as int, 256),
            r.launch_config.grid.1 == 1,
            r.launch_config.grid.2 == 1,
            r.launch_config.block == (256u32, 1u32, 1u32),
            r.launch_config.shared_mem_bytes == 0,
    {
        let body: Vec<Piece> =
            vec![
                Piece::Text(ptx_text::FMA_1),
            ];
        assert(body@ =~= fma_pieces());
        let source = self.emit("symplex_fma", &body);
        kernel_of(source, "symplex_fma", LaunchConfig::elementwise(n, 256), no_estimate())
    }

    /// The kernel that reduces `n` elements by `op`, with one shared element per thread.
    pub fn gen_reduction(&self, op: BinOpKind, n: usize) -> (r: CudaCompiledKernel)
        requires
            launch::blocks_fit(n, 256),
        ensures
            describes(
                r,
                self.source("symplex_reduction"@, pieces_text(reduction_pieces(op))),
                "symplex_reduction"@,
                no_estimate(),
            ),
            r.launch_config.grid.0 == if n as u32 == 0 {
                1
            } else {
                launch::blocks_for((n as u32) as int, 256)
            },
            r.launch_config.grid.1 == 1,
            r.launch_config.grid.2 == 1,
            r.launch_config.block == (256u32, 1u32, 1u32),
            r.launch_config.shared_mem_bytes == 1024,
    {
        let body: Vec<Piece> =
            vec![
                Piece::Text(ptx_text::REDUCTION_1),
                Piece::Number(1024),
                Piece::Text(ptx_text::REDUCTION_2),
                Piece::Text(reduction_identity(op)),
                Piece::Text(ptx_text::REDUCTION_3),
                Piece::Number(256),
                Piece::Text(ptx_text::REDUCTION_4),
                Piece::Number(256),
                Piece::Text(ptx_text::REDUCTION_5),
                Piece::Text(reduction_mnemonic(op)),
                Piece::Text(ptx_text::REDUCTION_6),
            ];
        assert(body@ =~= reduction_pieces(op));
        let source = self.emit("symplex_reduction", &body);
        let config = LaunchConfig {
            grid: (some_blocks(n, 256), 1, 1),
            block: (256, 1, 1),
            shared_mem_bytes: 1024,
        };
        kernel_of(source, "symplex_reduction", config, no_estimate())
    }

    /// The kernel of the five-point stencil on a `rows` by `cols` grid. The output leaves the
    /// border out.
    pub fn gen_stencil(&self, rows: usize, cols: usize) -> (r: CudaCompiledKernel)
        requires
            2 <= rows <= usize::MAX - 13,
            2 <= cols <= usize::MAX - 13,
        ensures
            describes(
                r,
                self.source("symplex_stencil5"@, pieces_text(stencil_pieces())),
                "symplex_stencil5"@,
                (FlopCount { factor: 5, m: (rows - 2) as usize, n: (cols - 2) as usize, k: 1 }),
            ),
            r.launch_config.grid.0 == launch::blocks_for(cols - 2, 16) as u32,
            r.launch_config.grid.1 == launch::blocks_for(rows - 2, 16) as u32,
            r.launch_config.grid.2 == 1,
            r.launch_config.block == (16u32, 16u32, 1u32),
            r.launch_config.shared_mem_bytes == 0,
    {
        let body: Vec<Piece> =
            vec![
                Piece::Text(ptx_text::STENCIL_1),
            ];
        assert(body@ =~= stencil_pieces());
        let source = self.emit("symplex_stencil5", &body);
        let out_rows: usize = rows - 2;
        let out_cols: usize = cols - 2;
        let grid_x: usize = (out_cols + 15) / 16;
        let grid_y: usize = (out_rows + 15) / 16;
        let config = LaunchConfig {
            grid: (
                #[verifier::truncate]
                (grid_x as u32),
                #[verifier::truncate]
                (grid_y as u32),
                1,
            ),
            block: (16, 16, 1),
            shared_mem_bytes: 0,
        };
        kernel_of(
            source,
            "symplex_stencil5",
            config,
            FlopCount { factor: 5, m: out_rows, n: out_cols, k: 1 },
        )
    }

    /// The kernel of a two-dimensional convolution as a matrix product.
    pub fn gen_conv2d(
        &self,
        batch: usize,
        oc: usize,
        ic: usize,
        oh: usize,
        ow: usize,
        kh: usize,
        kw: usize,
        _stride: usize,
        _pad: usize,
    ) -> (r: CudaCompiledKernel)
        requires
            batch * oh <= usize::MAX,
            batch * oh * ow <= usize::MAX,
            ic * kh <= usize::MAX,
            ic * kh * kw <= usize::MAX,
            launch::blocks_fit((batch * oh * ow) as usize, 256),
        ensures
            describes(
                r,
                self.source(
                    "symplex_conv2d"@,
                    pieces_text(
                        conv2d_pieces((batch * oh * ow) as u64, (ic * kh * kw) as u64),
                    ),
                ),
                "symplex_conv2d"@,
                (FlopCount {
                    factor: 2,
                    m: (batch * oh * ow) as usize,
                    n: oc,
                    k: (ic * kh * kw) as usize,
                }),
            ),
            r.launch_config.grid.0 == if (batch * oh * ow) as u32 == 0 {
                1
            } else {
                launch::blocks_for(((batch * oh * ow) as u32) as int, 256)
            },
            r.launch_config.grid.1 == 1,
            r.launch_config.grid.2 == 1,
            r.launch_config.block == (256u32, 1u32, 1u32),
            r.launch_config.shared_mem_bytes == 0,
    {
        let m: usize = batch * oh * ow;
        let k: usize = ic * kh * kw;
        let eff_m: u64 = m as u64;
        let eff_k: u64 = k as u64;
        let body: Vec<Piece> =
            vec![
                Piece::Text(ptx_text::CONV2D_1),
                Piece::Number(eff_m),
                Piece::Text(ptx_text::CONV2D_2),
                Piece::Number(eff_k),
                Piece::Text(ptx_text::CONV2D_3),
            ];
        assert(body@ =~= conv2d_pieces(eff_m, eff_k));
        let source = self.emit("symplex_conv2d", &body);
        let config = LaunchConfig {
            grid: (some_blocks(m, 256), 1, 1),
            block: (256, 1, 1),
            shared_mem_bytes: 0,
        };
        kernel_of(source, "symplex_conv2d", config, FlopCount { factor: 2, m, n: oc, k })
    }

    /// The kernel of an instruction trace with `param_count` parameters.
    pub fn gen_from_instrs(&self, instrs: &[Instr], param_count: u16) -> (r: CudaCompiledKernel)
        ensures
            describes(
                r,
                self.source("symplex_ir_kernel"@, ir_body(instrs@, param_count as nat)),
                "symplex_ir_kernel"@,
                no_estimate(),
            ),
            r.launch_config == (LaunchConfig {
                grid: (1, 1, 1),
                block: (256, 1, 1),
                shared_mem_bytes: 0,
            }),
    {
        let mut ptx = self.emit_header("symplex_ir_kernel");
        ptx.append(".entry symplex_ir_kernel(\n");
        let ghost head = ptx@;
        let mut p: u16 = 0;
        while p < param_count
            invariant
                p <= param_count,
                ptx@ == head + param_lines(p as nat),
            decreases param_count - p,
        {
            ptx.append("    .param .u64 param_");
            text::push_decimal(&mut ptx, p as u64);
            ptx.append(",\n");
            p += 1;
            assert(ptx@ =~= head + param_lines(p as nat));
        }
        ptx.append(ptx_text::IR_PROLOGUE);
        let ghost middle = ptx@;
        let mut i: usize = 0;
        while i < instrs.len()
            invariant
                i <= instrs.len(),
                ptx@ == middle + instr_lines(instrs@.take(i as int)),
            decreases instrs.len() - i,
        {
            push_instr_line(&mut ptx, &instrs[i]);
            i += 1;
            proof {
                let t = instrs@.take(i as int);
                assert(t.drop_last() =~= instrs@.take(i - 1));
                assert(ptx@ =~= middle + instr_lines(t));
            }
        }
        assert(instrs@.take(i as int) =~= instrs@);
        ptx.append("\n    ret;\n}\n");
        proof {
            assert(ptx@ =~= self.source(
                "symplex_ir_kernel"@,
                ir_body(instrs@, param_count as nat),
            ));
            assert(launch::blocks_for((1usize as u32) as int, 256) == 1);
        }
        kernel_of(ptx, "symplex_ir_kernel", LaunchConfig::elementwise(1, 256), no_estimate())
    }
}

} // verus!
