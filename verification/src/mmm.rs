//! Operand stores, kernel dispatch and the fused-operation pipeline.
//!
//! A kernel invocation executes an ordered list of fused operations over
//! one output tile: matmul accumulations (each reading a pair of operand
//! stores), fixed-point rescales, and stores of the accumulator to the
//! output view.  Operand stores are polymorphic over packed buffers,
//! virtual (on-demand) inputs and broadcast scalars, and are
//! interchangeable to the kernel loop.  Dispatch selects a concrete
//! kernel for a type combination deterministically.

use vstd::prelude::*;

verus! {

use vstd::arithmetic::div_mod::lemma_fundamental_div_mod;
use vstd::arithmetic::div_mod::lemma_fundamental_div_mod_converse;
use vstd::arithmetic::div_mod::lemma_mod_bound;
use vstd::arithmetic::div_mod::lemma_div_is_ordered;
use vstd::arithmetic::div_mod::lemma_div_multiples_vanish;
use crate::im2col::VirtualInput;
use crate::im2col::VirtualInputSpec;
use crate::pack::packed_len;
use crate::pack::Packer;
use crate::pack::packed_seq;
use crate::pack::panel_count;
use crate::pack::lemma_panel_position;
use crate::rounding::RoundingPolicy;
use crate::rounding::q_scale_spec;
use crate::tensor::Tensor;
use crate::CoreError;

/// Element type of an operand role.
#[derive(Clone, Copy, Debug, PartialEq, Eq, Structural)]
pub enum DType {
    I8,
    I32,
}

/// A kernel handle: the register-tile geometry and operand types of one
/// concrete microkernel implementation.
#[derive(Clone, Copy, Debug, PartialEq, Eq, Structural)]
pub struct Kernel {
    /// Rows of the register tile; panel width for the A operand.
    pub mr: usize,
    /// Columns of the register tile; panel width for the B operand.
    pub nr: usize,
    pub dt_a: DType,
    pub dt_b: DType,
    pub dt_c: DType,
}

/// The generic 32-bit integer kernel, tuned for large problems.
pub open spec fn kernel_i32() -> Kernel {
    Kernel { mr: 4, nr: 4, dt_a: DType::I32, dt_b: DType::I32, dt_c: DType::I32 }
}

/// The 32-bit integer kernel variant tuned for small problems.
pub open spec fn kernel_i32_small() -> Kernel {
    Kernel { mr: 1, nr: 1, dt_a: DType::I32, dt_b: DType::I32, dt_c: DType::I32 }
}

/// The quantized kernel: 8-bit operands, 32-bit accumulator output.
pub open spec fn kernel_i8() -> Kernel {
    Kernel { mr: 8, nr: 8, dt_a: DType::I8, dt_b: DType::I8, dt_c: DType::I32 }
}

/// A size hint small enough to prefer the small-problem variant.
pub open spec fn small_hint(h: Option<usize>) -> bool {
    h matches Some(x) && x <= 2
}

/// Deterministic kernel selection: first match over the registry in
/// priority order.  Hints only pick among variants of one type
/// combination; they never change numeric results.
pub open spec fn dispatch_spec(
    a: DType,
    b: DType,
    c: DType,
    hint_m: Option<usize>,
    hint_k: Option<usize>,
    hint_n: Option<usize>,
) -> Option<Kernel> {
    if a == DType::I8 && b == DType::I8 && c == DType::I32 {
        Some(kernel_i8())
    } else if a == DType::I32 && b == DType::I32 && c == DType::I32 {
        if small_hint(hint_m) && small_hint(hint_n) {
            Some(kernel_i32_small())
        } else {
            Some(kernel_i32())
        }
    } else {
        None
    }
}

/// What kernel acquisition returns: the dispatched kernel for a supported
/// type combination, `NotSupported` otherwise.
pub open spec fn mmm_post(
    a: DType,
    b: DType,
    c: DType,
    hint_m: Option<usize>,
    hint_k: Option<usize>,
    hint_n: Option<usize>,
    r: Result<Kernel, CoreError>,
) -> bool {
    match dispatch_spec(a, b, c, hint_m, hint_k, hint_n) {
        Some(k) => r == Ok::<Kernel, CoreError>(k),
        None => r == Err::<Kernel, CoreError>(CoreError::NotSupported),
    }
}

/// Kernel acquisition: returns the best available kernel for the element
/// types of the three operand roles, or `NotSupported` if no
/// implementation exists for that combination.  Selection is pure and
/// deterministic in the types and hints.
pub fn mmm(
    a: DType,
    b: DType,
    c: DType,
    hint_m: Option<usize>,
    hint_k: Option<usize>,
    hint_n: Option<usize>,
) -> (r: Result<Kernel, CoreError>)
    ensures
        mmm_post(a, b, c, hint_m, hint_k, hint_n, r),
{
    if a == DType::I8 && b == DType::I8 && c == DType::I32 {
        Ok(Kernel { mr: 8, nr: 8, dt_a: DType::I8, dt_b: DType::I8, dt_c: DType::I32 })
    } else if a == DType::I32 && b == DType::I32 && c == DType::I32 {
        let small_m = match hint_m {
            Some(x) => x <= 2,
            None => false,
        };
        let small_n = match hint_n {
            Some(x) => x <= 2,
            None => false,
        };
        if small_m && small_n {
            Ok(Kernel { mr: 1, nr: 1, dt_a: DType::I32, dt_b: DType::I32, dt_c: DType::I32 })
        } else {
            Ok(Kernel { mr: 4, nr: 4, dt_a: DType::I32, dt_b: DType::I32, dt_c: DType::I32 })
        }
    } else {
        Err(CoreError::NotSupported)
    }
}

/// Dispatch determinism: two kernel acquisitions with identical types and
/// hints return the same kernel, hence the same packing layout and the
/// same numeric results.
pub proof fn lemma_dispatch_deterministic(
    a: DType,
    b: DType,
    c: DType,
    hint_m: Option<usize>,
    hint_k: Option<usize>,
    hint_n: Option<usize>,
    r1: Result<Kernel, CoreError>,
    r2: Result<Kernel, CoreError>,
)
    requires
        mmm_post(a, b, c, hint_m, hint_k, hint_n, r1),
        mmm_post(a, b, c, hint_m, hint_k, hint_n, r2),
    ensures
        r1 == r2,
{
}

/// Position of logical element `(kk, col)` inside a packed buffer of
/// depth `k` and panel width `r`.
pub open spec fn packed_pos(k: int, r: int, kk: int, col: int) -> int {
    ((col / r) * k + kk) * r + col % r
}

/// The packed position of an in-range element lies inside the buffer and
/// decomposes back to the element's panel, row and lane.
pub proof fn lemma_packed_pos_bound(k: int, n: int, r: int, kk: int, col: int)
    requires
        r >= 1,
        0 <= kk < k,
        0 <= col < n,
    ensures
        0 <= packed_pos(k, r, kk, col) < packed_len(k as nat, n as nat, r as nat),
{
    let p = col / r;
    let lane = col % r;
    lemma_fundamental_div_mod(col, r);
    lemma_mod_bound(col, r);
    assert(0 <= p) by (nonlinear_arith)
        requires
            col >= 0 && r >= 1 && col == p * r + lane && 0 <= lane < r,
    ;
    let idx = packed_pos(k, r, kk, col);
    assert(idx == p * (k * r) + kk * r + lane) by (nonlinear_arith)
        requires
            idx == (p * k + kk) * r + lane,
    ;
    lemma_panel_position(p, kk, lane, k, r);
    let panels = panel_count(n as nat, r as nat) as int;
    assert((p + 1) * r <= n + r - 1) by (nonlinear_arith)
        requires
            col == p * r + lane && 0 <= lane < r && col < n,
    ;
    lemma_div_is_ordered((p + 1) * r, n + r - 1, r);
    lemma_div_multiples_vanish(p + 1, r);
    assert(p + 1 <= panels);
    assert(p * (k * r) + kk * r + lane < panels * k * r) by (nonlinear_arith)
        requires
            p + 1 <= panels && 0 <= kk < k && 0 <= lane < r && r >= 1 && k >= 1 && p >= 0,
    ;
    assert(packed_len(k as nat, n as nat, r as nat) == panel_count(n as nat, r as nat) * (
    k as nat) * (r as nat));
    assert(idx >= 0) by (nonlinear_arith)
        requires
            idx == p * (k * r) + kk * r + lane && p >= 0 && k >= 1 && r >= 1 && kk >= 0 && lane
                >= 0,
    ;
}

/// Reading the packed layout back: element `(kk, col)` of the packed
/// image of an operand is element `(kk, col)` of the operand itself.
pub proof fn lemma_packed_roundtrip(src: Seq<i32>, k: nat, n: nat, r: nat, kk: int, col: int)
    requires
        r >= 1,
        0 <= kk < k,
        0 <= col < n,
    ensures
        packed_seq(src, k, n, r)[packed_pos(k as int, r as int, kk, col)] == src[kk * n + col],
{
    lemma_packed_pos_bound(k as int, n as int, r as int, kk, col);
    let p = col / (r as int);
    let lane = col % (r as int);
    lemma_fundamental_div_mod(col, r as int);
    lemma_mod_bound(col, r as int);
    let idx = packed_pos(k as int, r as int, kk, col);
    assert(idx == p * ((k * r) as int) + kk * (r as int) + lane) by (nonlinear_arith)
        requires
            idx == (p * k + kk) * r + lane,
    ;
    assert(0 <= p) by (nonlinear_arith)
        requires
            col >= 0 && r >= 1 && col == p * r + lane && 0 <= lane < r,
    ;
    lemma_panel_position(p, kk, lane, k as int, r as int);
    assert(p * (r as int) + lane == col);
}

/// An operand store: the operand-supplying abstraction a kernel
/// invocation consumes.  Packed wraps a caller-allocated packed buffer;
/// Virtual synthesizes packed data on demand; Scalar broadcasts one value
/// over the whole logical extent.
#[derive(Debug)]
pub enum OperandStore {
    Packed { dtype: DType, buf: Vec<i32>, k: usize, mn: usize, r: usize },
    Virtual { dtype: DType, input: VirtualInput },
    Scalar { dtype: DType, value: i32, k: usize, mn: usize },
}

impl OperandStore {
    /// Declared element type of the store.
    pub open spec fn dtype_spec(self) -> DType {
        match self {
            OperandStore::Packed { dtype, .. } => dtype,
            OperandStore::Virtual { dtype, .. } => dtype,
            OperandStore::Scalar { dtype, .. } => dtype,
        }
    }

    /// Depth (K extent) of the logical operand.
    pub open spec fn k_depth(self) -> int {
        match self {
            OperandStore::Packed { k, .. } => k as int,
            OperandStore::Virtual { input, .. } => input.k_extent(),
            OperandStore::Scalar { k, .. } => k as int,
        }
    }

    /// Width (M or N extent) of the logical operand.
    pub open spec fn width(self) -> int {
        match self {
            OperandStore::Packed { mn, .. } => mn as int,
            OperandStore::Virtual { input, .. } => input.n_extent(),
            OperandStore::Scalar { mn, .. } => mn as int,
        }
    }

    /// Internal consistency: a packed buffer holds exactly the panel
    /// image of its declared extents; a virtual input is well formed.
    pub open spec fn wf_store(self) -> bool {
        match self {
            OperandStore::Packed { buf, k, mn, r, .. } => r >= 1 && buf@.len() == packed_len(
                k as nat,
                mn as nat,
                r as nat,
            ),
            OperandStore::Virtual { input, .. } => input.wf(),
            OperandStore::Scalar { .. } => true,
        }
    }

    /// Logical element `(kk, col)` of the operand this store supplies.
    pub open spec fn elem_spec(self, kk: int, col: int) -> i32 {
        match self {
            OperandStore::Packed { buf, k, r, .. } => buf@[packed_pos(k as int, r as int, kk,
                col)],
            OperandStore::Virtual { input, .. } => input.entry_spec(kk, col),
            OperandStore::Scalar { value, .. } => value,
        }
    }

    /// Depth of the logical operand.
    pub fn k_depth_exec(&self) -> (d: usize)
        requires
            self.wf_store(),
        ensures
            d == self.k_depth(),
    {
        match self {
            OperandStore::Packed { k, .. } => *k,
            OperandStore::Virtual { input, .. } => input.k_extent_exec(),
            OperandStore::Scalar { k, .. } => *k,
        }
    }

    /// Width of the logical operand.
    pub fn width_exec(&self) -> (w: usize)
        requires
            self.wf_store(),
        ensures
            w == self.width(),
    {
        match self {
            OperandStore::Packed { mn, .. } => *mn,
            OperandStore::Virtual { input, .. } => input.n_extent_exec(),
            OperandStore::Scalar { mn, .. } => *mn,
        }
    }

    /// Declared element type of the store.
    pub fn dtype_exec(&self) -> (t: DType)
        ensures
            t == self.dtype_spec(),
    {
        match self {
            OperandStore::Packed { dtype, .. } => *dtype,
            OperandStore::Virtual { dtype, .. } => *dtype,
            OperandStore::Scalar { dtype, .. } => *dtype,
        }
    }

    /// Reads one logical element, whatever the store's representation.
    pub fn elem(&self, kk: usize, col: usize) -> (v: i32)
        requires
            self.wf_store(),
            kk < self.k_depth(),
            col < self.width(),
        ensures
            v == self.elem_spec(kk as int, col as int),
    {
        match self {
            OperandStore::Packed { buf, k, mn, r, .. } => {
                let bl = buf.len();
                let q = col / *r;
                let lane = col % *r;
                proof {
                    lemma_fundamental_div_mod(col as int, *r as int);
                    lemma_mod_bound(col as int, *r as int);
                    lemma_packed_pos_bound(*k as int, *mn as int, *r as int, kk as int,
                        col as int);
                    assert(q as int >= 0);
                    assert((q as int) * (*k as int) + kk as int >= 0) by (nonlinear_arith)
                        requires
                            q as int >= 0 && *k as int >= 0 && kk as int >= 0,
                    ;
                    assert(((q as int) * (*k as int) + kk as int) * (*r as int) + lane as int
                        == packed_pos(*k as int, *r as int, kk as int, col as int));
                    assert((q as int) * (*k as int) + kk as int <= ((q as int) * (*k as int)
                        + kk as int) * (*r as int) + lane as int) by (nonlinear_arith)
                        requires
                            (q as int) * (*k as int) + kk as int >= 0 && *r as int >= 1
                                && lane as int >= 0,
                    ;
                    assert(bl == buf@.len());
                }
                let pos = (q * *k + kk) * *r + lane;
                buf[pos]
            },
            OperandStore::Virtual { input, .. } => input.entry(kk, col),
            OperandStore::Scalar { value, .. } => *value,
        }
    }
}

impl Kernel {
    /// Packing requirements of the A-role operand: panels as wide as the
    /// register tile's rows, aligned for vector loads.
    pub fn pack_info_a(&self) -> (p: Packer)
        requires
            self.mr >= 1,
        ensures
            p.r == self.mr,
            p.align == 32,
            p.wf(),
    {
        Packer::new(self.mr, 32)
    }

    /// Packing requirements of the B-role operand: panels as wide as the
    /// register tile's columns, aligned for vector loads.
    pub fn pack_info_b(&self) -> (p: Packer)
        requires
            self.nr >= 1,
        ensures
            p.r == self.nr,
            p.align == 32,
            p.wf(),
    {
        Packer::new(self.nr, 32)
    }

    /// Binds a caller-allocated packed buffer as the A-role operand
    /// store, validating its length against the declared `k` x `m`
    /// extents at this kernel's row panel width.
    pub fn a_packed(&self, dtype: DType, buf: Vec<i32>, k: usize, m: usize) -> (r: Result<
        OperandStore,
        CoreError,
    >)
        requires
            self.mr >= 1,
        ensures
            match r {
                Ok(st) => st == (OperandStore::Packed {
                    dtype,
                    buf,
                    k,
                    mn: m,
                    r: self.mr,
                }) && st.wf_store() && st.k_depth() == k && st.width() == m,
                Err(e) => e == CoreError::ShapeMismatch && buf@.len() != packed_len(k as nat,
                    m as nat, self.mr as nat),
            },
    {
        let buf_len: usize = buf.len();
        let want = self.pack_len_checked(k, m, self.mr);
        match want {
            Some(l) => {
                if buf_len == l {
                    Ok(OperandStore::Packed { dtype, buf, k, mn: m, r: self.mr })
                } else {
                    Err(CoreError::ShapeMismatch)
                }
            },
            None => Err(CoreError::ShapeMismatch),
        }
    }

    /// Binds a caller-allocated packed buffer as the B-role operand
    /// store, validating its length against the declared `k` x `n`
    /// extents at this kernel's column panel width.
    pub fn b_packed(&self, dtype: DType, buf: Vec<i32>, k: usize, n: usize) -> (r: Result<
        OperandStore,
        CoreError,
    >)
        requires
            self.nr >= 1,
        ensures
            match r {
                Ok(st) => st == (OperandStore::Packed {
                    dtype,
                    buf,
                    k,
                    mn: n,
                    r: self.nr,
                }) && st.wf_store() && st.k_depth() == k && st.width() == n,
                Err(e) => e == CoreError::ShapeMismatch && buf@.len() != packed_len(k as nat,
                    n as nat, self.nr as nat),
            },
    {
        let buf_len: usize = buf.len();
        let want = self.pack_len_checked(k, n, self.nr);
        match want {
            Some(l) => {
                if buf_len == l {
                    Ok(OperandStore::Packed { dtype, buf, k, mn: n, r: self.nr })
                } else {
                    Err(CoreError::ShapeMismatch)
                }
            },
            None => Err(CoreError::ShapeMismatch),
        }
    }

    /// Binds a virtual-input rule and its source as the B-role operand
    /// store, validating the declared depth against the rule's extent.
    pub fn b_virtual_input(&self, dtype: DType, rule: VirtualInputSpec, source: Tensor, k: usize)
        -> (r: Result<OperandStore, CoreError>)
        requires
            source.wf(),
        ensures
            match r {
                Ok(st) => st matches OperandStore::Virtual { dtype: dt, input } && dt == dtype
                    && input.rule == rule && input.source@ == source@ && st.wf_store()
                    && st.k_depth() == k,
                Err(e) => e == CoreError::ShapeMismatch && !((VirtualInput {
                    rule,
                    source,
                }).wf() && (VirtualInput { rule, source }).k_extent() == k),
            },
    {
        match rule.wrap(source) {
            Ok(input) => {
                if input.k_extent_exec() == k {
                    Ok(OperandStore::Virtual { dtype, input })
                } else {
                    Err(CoreError::ShapeMismatch)
                }
            },
            Err(e) => Err(e),
        }
    }

    /// Packed-buffer length at panel width `r`, `None` when it cannot be
    /// represented.
    fn pack_len_checked(&self, k: usize, n: usize, r: usize) -> (l: Option<usize>)
        requires
            r >= 1,
        ensures
            match l {
                Some(x) => x == packed_len(k as nat, n as nat, r as nat),
                None => packed_len(k as nat, n as nat, r as nat) > usize::MAX,
            },
    {
        let panels: usize = if n == 0 {
            proof {
                vstd::arithmetic::div_mod::lemma_basic_div(r as int - 1, r as int);
            }
            0
        } else {
            let q = (n - 1) / r;
            proof {
                lemma_fundamental_div_mod(n as int - 1, r as int);
                lemma_mod_bound(n as int - 1, r as int);
                assert((q as int + 1) * (r as int) == (r as int) * (q as int) + r as int) by (
                nonlinear_arith);
                lemma_fundamental_div_mod_converse(n as int + r as int - 1, r as int,
                    q as int + 1, (n as int - 1) % (r as int));
            }
            q + 1
        };
        proof {
            assert(panels == panel_count(n as nat, r as nat));
        }
        match panels.checked_mul(k) {
            Some(pk) => {
                match pk.checked_mul(r) {
                    Some(x) => Some(x),
                    None => {
                        proof {
                            assert((panels as int) * (k as int) * (r as int) > usize::MAX) by (
                            nonlinear_arith)
                                requires
                                    (panels as int) * (k as int) == pk as int && (pk as int) * (
                                    r as int) > usize::MAX,
                            ;
                        }
                        None
                    },
                }
            },
            None => {
                proof {
                    assert((panels as int) * (k as int) * (r as int) > usize::MAX) by (
                    nonlinear_arith)
                        requires
                            (panels as int) * (k as int) > usize::MAX && r >= 1,
                    ;
                }
                None
            },
        }
    }
}


/// One step of a fused pipeline.  Sequence order is significant; the
/// accumulator persists across steps within one `run` call.
#[derive(Debug)]
pub enum FusedOp {
    /// Accumulate the K-deep product of the A-role and B-role stores.
    AddMatMul { k: usize, a: OperandStore, b: OperandStore },
    /// Rescale every accumulator cell by the fixed-point multiplier and
    /// shift, rounding under the policy.
    QScale { mult: i32, shift: usize, policy: RoundingPolicy },
    /// Write the accumulator to the output view.
    Store,
}

/// K-deep dot product of column `i` of `a` against column `j` of `b`,
/// over the depth range `lo..hi`.
pub open spec fn dot_spec(
    a: OperandStore,
    b: OperandStore,
    i: int,
    j: int,
    lo: int,
    hi: int,
) -> int
    decreases hi - lo,
{
    if hi <= lo {
        0
    } else {
        dot_spec(a, b, i, j, lo, hi - 1) + (a.elem_spec(hi - 1, i) as int) * (b.elem_spec(
            hi - 1,
            j,
        ) as int)
    }
}

/// Accumulator tile before any operation: all zeros.
pub open spec fn zero_acc(m: int, n: int) -> Seq<int> {
    Seq::new((m * n) as nat, |x: int| 0)
}

/// Effect of one fused operation on the accumulator tile (cells are laid
/// out row-major over the `m` x `n` tile).
pub open spec fn apply_op(acc: Seq<int>, op: FusedOp, n: int) -> Seq<int> {
    match op {
        FusedOp::AddMatMul { k, a, b } => Seq::new(
            acc.len(),
            |x: int| acc[x] + dot_spec(a, b, x / n, x % n, 0, k as int),
        ),
        FusedOp::QScale { mult, shift, policy } => Seq::new(
            acc.len(),
            |x: int| q_scale_spec(acc[x], mult as int, shift as nat, policy),
        ),
        FusedOp::Store => acc,
    }
}

/// Accumulator tile after a prefix of the pipeline.
pub open spec fn acc_after(ops: Seq<FusedOp>, m: int, n: int) -> Seq<int>
    decreases ops.len(),
{
    if ops.len() == 0 {
        zero_acc(m, n)
    } else {
        apply_op(acc_after(ops.drop_last(), m, n), ops.last(), n)
    }
}

/// Output view after a prefix of the pipeline: the last `Store` wrote the
/// accumulator of its moment; with no `Store`, the view is untouched.
pub open spec fn out_after(ops: Seq<FusedOp>, m: int, n: int, init: Seq<i32>) -> Seq<i32>
    decreases ops.len(),
{
    if ops.len() == 0 {
        init
    } else if ops.last() is Store {
        Seq::new((m * n) as nat, |x: int| acc_after(ops.drop_last(), m, n)[x] as i32)
    } else {
        out_after(ops.drop_last(), m, n, init)
    }
}

/// Accumulator cell `x` at the moment operation `t` is about to run.
pub open spec fn cell_after(ops: Seq<FusedOp>, m: int, n: int, t: int, x: int) -> int {
    acc_after(ops.take(t), m, n)[x]
}

/// Shape consistency of one op against the declared tile extents.
pub open spec fn op_shape_ok(op: FusedOp, m: int, n: int) -> bool {
    match op {
        FusedOp::AddMatMul { k, a, b } => a.k_depth() == k && b.k_depth() == k && a.width() == m
            && b.width() == n,
        FusedOp::QScale { .. } => true,
        FusedOp::Store => true,
    }
}

pub open spec fn ops_shape_ok(ops: Seq<FusedOp>, m: int, n: int) -> bool {
    forall|t: int| 0 <= t < ops.len() ==> op_shape_ok(#[trigger] ops[t], m, n)
}

/// Type consistency of one op against the kernel's declared types.
pub open spec fn op_type_ok(op: FusedOp, kernel: Kernel) -> bool {
    match op {
        FusedOp::AddMatMul { a, b, .. } => a.dtype_spec() == kernel.dt_a && b.dtype_spec()
            == kernel.dt_b,
        _ => true,
    }
}

pub open spec fn ops_type_ok(ops: Seq<FusedOp>, kernel: Kernel) -> bool {
    &&& kernel.dt_c == DType::I32
    &&& forall|t: int| 0 <= t < ops.len() ==> op_type_ok(#[trigger] ops[t], kernel)
}

/// Internal consistency of every store an op list carries.
pub open spec fn op_wf(op: FusedOp) -> bool {
    match op {
        FusedOp::AddMatMul { a, b, .. } => a.wf_store() && b.wf_store(),
        _ => true,
    }
}

pub open spec fn ops_wf(ops: Seq<FusedOp>) -> bool {
    forall|t: int| 0 <= t < ops.len() ==> op_wf(#[trigger] ops[t])
}

/// Everything the pipeline computes stays representable: every
/// accumulator cell at every step fits the 64-bit accumulator, and every
/// cell a `Store` writes fits the 32-bit output element.
pub open spec fn run_bounded(ops: Seq<FusedOp>, m: int, n: int) -> bool {
    &&& forall|t: int, x: int|
        0 <= t <= ops.len() && 0 <= x < m * n ==> i64::MIN <= #[trigger] cell_after(ops, m, n, t,
            x) <= i64::MAX
    &&& forall|t: int, x: int|
        0 <= t < ops.len() && ops[t] is Store && 0 <= x < m * n ==> i32::MIN
            <= #[trigger] cell_after(ops, m, n, t, x) <= i32::MAX
}

/// The accumulator tile always holds one cell per output position.
pub proof fn lemma_acc_len(ops: Seq<FusedOp>, m: int, n: int)
    requires
        m >= 0,
        n >= 0,
    ensures
        acc_after(ops, m, n).len() == m * n,
    decreases ops.len(),
{
    if ops.len() == 0 {
    } else {
        lemma_acc_len(ops.drop_last(), m, n);
    }
}

/// The output view keeps one element per output position.
pub proof fn lemma_out_len(ops: Seq<FusedOp>, m: int, n: int, init: Seq<i32>)
    requires
        m >= 0,
        n >= 0,
        init.len() == m * n,
    ensures
        out_after(ops, m, n, init).len() == m * n,
    decreases ops.len(),
{
    if ops.len() == 0 {
    } else if ops.last() is Store {
    } else {
        lemma_out_len(ops.drop_last(), m, n, init);
    }
}

/// A partial dot product of 32-bit elements is bounded by its depth
/// times the largest element product.
proof fn lemma_dot_bound(a: OperandStore, b: OperandStore, i: int, j: int, lo: int, hi: int)
    requires
        lo <= hi,
    ensures
        -((hi - lo) * 0x4000000000000000) <= dot_spec(a, b, i, j, lo, hi) <= (hi - lo)
            * 0x4000000000000000,
    decreases hi - lo,
{
    if hi <= lo {
    } else {
        lemma_dot_bound(a, b, i, j, lo, hi - 1);
        let x = a.elem_spec(hi - 1, i) as int;
        let y = b.elem_spec(hi - 1, j) as int;
        assert(-0x4000000000000000 <= x * y <= 0x4000000000000000) by (nonlinear_arith)
            requires
                -0x80000000 <= x <= 0x7fffffff && -0x80000000 <= y <= 0x7fffffff,
        ;
        assert((hi - lo) * 0x4000000000000000 == (hi - 1 - lo) * 0x4000000000000000
            + 0x4000000000000000) by (nonlinear_arith);
    }
}

/// K-deep dot product of column `i` of `a` against column `j` of `b`,
/// computed at full width.
fn dot_exec(a: &OperandStore, b: &OperandStore, i: usize, j: usize, k: usize) -> (r: i128)
    requires
        a.wf_store(),
        b.wf_store(),
        k <= a.k_depth(),
        k <= b.k_depth(),
        i < a.width(),
        j < b.width(),
    ensures
        r == dot_spec(*a, *b, i as int, j as int, 0, k as int),
{
    let mut r: i128 = 0;
    let mut kk: usize = 0;
    while kk < k
        invariant
            a.wf_store(),
            b.wf_store(),
            k <= a.k_depth(),
            k <= b.k_depth(),
            i < a.width(),
            j < b.width(),
            kk <= k,
            r == dot_spec(*a, *b, i as int, j as int, 0, kk as int),
        decreases k - kk,
    {
        let x = a.elem(kk, i);
        let y = b.elem(kk, j);
        proof {
            lemma_dot_bound(*a, *b, i as int, j as int, 0, kk as int);
            assert(-0x4000000000000000 <= (x as int) * (y as int) <= 0x4000000000000000) by (
            nonlinear_arith)
                requires
                    -0x80000000 <= x as int <= 0x7fffffff && -0x80000000 <= y as int
                        <= 0x7fffffff,
            ;
            assert((kk as int) * 0x4000000000000000 <= 0x40000000000000000000000000000000) by (
            nonlinear_arith)
                requires
                    0 <= kk as int <= 0xffffffffffffffff,
            ;
        }
        r = r + (x as i128) * (y as i128);
        kk = kk + 1;
    }
    r
}

impl Kernel {
    /// Executes the ordered fused-operation list over one `m` x `n`
    /// output tile.  The accumulator starts at zero, persists across the
    /// steps of this one call, and does not survive it.  Shape
    /// inconsistencies between the declared extents, the stores and the
    /// output view, and element types inconsistent with the kernel, are
    /// recoverable errors; either way the output view is only written by
    /// a successful run.
    pub fn run(&self, m: usize, n: usize, ops: &Vec<FusedOp>, out: &mut Vec<i32>) -> (res: Result<
        (),
        CoreError,
    >)
        requires
            ops_wf(ops@),
            (old(out)@.len() == (m as int) * (n as int) && ops_shape_ok(ops@, m as int, n as int)
                && ops_type_ok(ops@, *self)) ==> run_bounded(ops@, m as int, n as int),
        ensures
            ({
                let shape_all = old(out)@.len() == (m as int) * (n as int) && ops_shape_ok(ops@,
                    m as int, n as int);
                let type_all = ops_type_ok(ops@, *self);
                match res {
                    Ok(()) => shape_all && type_all && final(out)@ == out_after(ops@, m as int,
                        n as int, old(out)@),
                    Err(e) => final(out)@ == old(out)@ && ((e == CoreError::ShapeMismatch
                        && !shape_all) || (e == CoreError::TypeMismatch && shape_all
                        && !type_all)),
                }
            }),
    {
        let ghost mi = m as int;
        let ghost ni = n as int;
        let out_len: usize = out.len();
        let total = match m.checked_mul(n) {
            Some(t) => t,
            None => {
                proof {
                    assert(old(out)@.len() == out_len as int);
                    assert(old(out)@.len() != mi * ni);
                }
                return Err(CoreError::ShapeMismatch);
            },
        };
        if out.len() != total {
            return Err(CoreError::ShapeMismatch);
        }
        let mut t: usize = 0;
        while t < ops.len()
            invariant
                ops_wf(ops@),
                mi == m as int,
                ni == n as int,
                t <= ops@.len(),
                out@ == old(out)@,
                forall|s: int| 0 <= s < t ==> op_shape_ok(#[trigger] ops@[s], mi, ni),
            decreases ops@.len() - t,
        {
            proof {
                assert(op_wf(ops@[t as int]));
            }
            let ok = match &ops[t] {
                FusedOp::AddMatMul { k, a, b } => {
                    proof {
                        assert(ops@[t as int] == (FusedOp::AddMatMul { k: *k, a: *a, b: *b }));
                    }
                    a.k_depth_exec() == *k && b.k_depth_exec() == *k && a.width_exec() == m
                        && b.width_exec() == n
                },
                _ => true,
            };
            if !ok {
                proof {
                    assert(!op_shape_ok(ops@[t as int], mi, ni));
                }
                return Err(CoreError::ShapeMismatch);
            }
            t = t + 1;
        }
        if !matches!(self.dt_c, DType::I32) {
            proof {
                assert(ops_shape_ok(ops@, mi, ni));
                assert(!ops_type_ok(ops@, *self));
                assert(out@ == old(out)@);
            }
            return Err(CoreError::TypeMismatch);
        }
        let mut t2: usize = 0;
        while t2 < ops.len()
            invariant
                ops_wf(ops@),
                mi == m as int,
                ni == n as int,
                t2 <= ops@.len(),
                out@ == old(out)@,
                old(out)@.len() == mi * ni,
                ops_shape_ok(ops@, mi, ni),
                forall|s: int| 0 <= s < t2 ==> op_type_ok(#[trigger] ops@[s], *self),
            decreases ops@.len() - t2,
        {
            let ok = match &ops[t2] {
                FusedOp::AddMatMul { k, a, b } => {
                    proof {
                        assert(ops@[t2 as int] == (FusedOp::AddMatMul { k: *k, a: *a, b: *b }));
                    }
                    let ta = a.dtype_exec();
                    let tb = b.dtype_exec();
                    matches!((ta, self.dt_a), (DType::I8, DType::I8) | (DType::I32, DType::I32))
                        && matches!(
                        (tb, self.dt_b),
                        (DType::I8, DType::I8) | (DType::I32, DType::I32)
                    )
                },
                _ => true,
            };
            if !ok {
                proof {
                    assert(!op_type_ok(ops@[t2 as int], *self));
                }
                return Err(CoreError::TypeMismatch);
            }
            t2 = t2 + 1;
        }
        proof {
            assert(ops_shape_ok(ops@, mi, ni));
            assert(ops_type_ok(ops@, *self));
            assert(run_bounded(ops@, mi, ni));
        }
        let mut acc: Vec<i64> = Vec::new();
        let mut z: usize = 0;
        while z < total
            invariant
                z <= total,
                acc@.len() == z,
                forall|x: int| 0 <= x < z ==> acc@[x] == 0,
            decreases total - z,
        {
            acc.push(0i64);
            z = z + 1;
        }
        proof {
            assert(ops@.take(0) =~= Seq::<FusedOp>::empty());
            lemma_acc_len(ops@.take(0), mi, ni);
            assert(forall|x: int|
                0 <= x < total ==> acc@[x] == #[trigger] cell_after(ops@, mi, ni, 0, x));
        }
        let mut step: usize = 0;
        while step < ops.len()
            invariant
                ops_wf(ops@),
                ops_shape_ok(ops@, mi, ni),
                ops_type_ok(ops@, *self),
                run_bounded(ops@, mi, ni),
                mi == m as int,
                ni == n as int,
                total == mi * ni,
                old(out)@.len() == total,
                step <= ops@.len(),
                acc@.len() == total,
                out@.len() == total,
                out@ == out_after(ops@.take(step as int), mi, ni, old(out)@),
                forall|x: int|
                    0 <= x < total ==> acc@[x] == #[trigger] cell_after(ops@, mi, ni,
                        step as int, x),
            decreases ops@.len() - step,
        {
            let ghost prev = ops@.take(step as int);
            let ghost cur = ops@.take(step as int + 1);
            proof {
                assert(cur.drop_last() =~= prev);
                assert(cur.last() == ops@[step as int]);
                lemma_acc_len(prev, mi, ni);
                lemma_acc_len(cur, mi, ni);
                assert(op_wf(ops@[step as int]));
                assert(op_shape_ok(ops@[step as int], mi, ni));
                assert forall|x: int| 0 <= x < total implies acc@[x] == acc_after(prev, mi, ni)[x]
                by {
                    assert(acc@[x] == cell_after(ops@, mi, ni, step as int, x));
                };
            }
            match &ops[step] {
                FusedOp::AddMatMul { k, a, b } => {
                    proof {
                        assert(ops@[step as int] == (FusedOp::AddMatMul { k: *k, a: *a, b: *b }));
                    }
                    let mut i: usize = 0;
                    while i < m
                        invariant
                            ops_wf(ops@),
                            run_bounded(ops@, mi, ni),
                            mi == m as int,
                            ni == n as int,
                            total == mi * ni,
                            step < ops@.len(),
                            prev == ops@.take(step as int),
                            cur == ops@.take(step as int + 1),
                            cur.drop_last() == prev,
                            cur.last() == ops@[step as int],
                            ops@[step as int] == (FusedOp::AddMatMul { k: *k, a: *a, b: *b }),
                            a.wf_store(),
                            b.wf_store(),
                            a.k_depth() == *k,
                            b.k_depth() == *k,
                            a.width() == mi,
                            b.width() == ni,
                            acc_after(prev, mi, ni).len() == total,
                            acc_after(cur, mi, ni).len() == total,
                            i <= m,
                            acc@.len() == total,
                            forall|x: int|
                                0 <= x < (i as int) * ni ==> acc@[x] == acc_after(cur, mi, ni)[x],
                            forall|x: int|
                                (i as int) * ni <= x < total ==> acc@[x] == acc_after(prev, mi,
                                    ni)[x],
                        decreases m - i,
                    {
                        let mut j: usize = 0;
                        proof {
                            assert((i as int) * ni + ni <= total) by (nonlinear_arith)
                                requires
                                    (i as int) < mi && total == mi * ni && ni >= 0,
                            ;
                            assert(((i as int) + 1) * ni == (i as int) * ni + ni) by (
                            nonlinear_arith);
                        }
                        while j < n
                            invariant
                                ops_wf(ops@),
                                run_bounded(ops@, mi, ni),
                                mi == m as int,
                                ni == n as int,
                                total == mi * ni,
                                step < ops@.len(),
                                prev == ops@.take(step as int),
                                cur == ops@.take(step as int + 1),
                                cur.drop_last() == prev,
                                cur.last() == ops@[step as int],
                                ops@[step as int] == (FusedOp::AddMatMul { k: *k, a: *a, b: *b }),
                                a.wf_store(),
                                b.wf_store(),
                                a.k_depth() == *k,
                                b.k_depth() == *k,
                                a.width() == mi,
                                b.width() == ni,
                                acc_after(prev, mi, ni).len() == total,
                                acc_after(cur, mi, ni).len() == total,
                                i < m,
                                j <= n,
                                (i as int) * ni + ni <= total,
                                acc@.len() == total,
                                forall|x: int|
                                    0 <= x < (i as int) * ni + j as int ==> acc@[x] == acc_after(
                                        cur, mi, ni)[x],
                                forall|x: int|
                                    (i as int) * ni + j as int <= x < total ==> acc@[x]
                                        == acc_after(prev, mi, ni)[x],
                            decreases n - j,
                        {
                            let idx = i * n + j;
                            let base = acc[idx];
                            let d = dot_exec(a, b, i, j, *k);
                            proof {
                                lemma_fundamental_div_mod_converse(idx as int, ni, i as int,
                                    j as int);
                                assert(acc_after(cur, mi, ni)[idx as int] == acc_after(prev, mi,
                                    ni)[idx as int] + dot_spec(*a, *b, i as int, j as int, 0,
                                    *k as int));
                                assert(cell_after(ops@, mi, ni, step as int + 1, idx as int)
                                    == acc_after(cur, mi, ni)[idx as int]);
                                assert(i64::MIN <= cell_after(ops@, mi, ni, step as int + 1,
                                    idx as int) <= i64::MAX);
                            }
                            let wide: i128 = (base as i128) + d;
                            let v: i64 = wide as i64;
                            acc[idx] = v;
                            j = j + 1;
                        }
                        proof {
                            assert(((i as int) + 1) * ni == (i as int) * ni + ni) by (
                            nonlinear_arith);
                        }
                        i = i + 1;
                    }
                    proof {
                        assert((m as int) * ni == total);
                        assert forall|x: int| 0 <= x < total implies acc@[x] == acc_after(cur, mi,
                            ni)[x] by {
                            assert(0 <= x < (i as int) * ni);
                        };
                        assert(out_after(cur, mi, ni, old(out)@) == out_after(prev, mi, ni,
                            old(out)@));
                    }
                },
                FusedOp::QScale { mult, shift, policy } => {
                    proof {
                        assert(ops@[step as int] == (FusedOp::QScale {
                            mult: *mult,
                            shift: *shift,
                            policy: *policy,
                        }));
                    }
                    let mut x: usize = 0;
                    while x < total
                        invariant
                            run_bounded(ops@, mi, ni),
                            mi == m as int,
                            ni == n as int,
                            total == mi * ni,
                            step < ops@.len(),
                            prev == ops@.take(step as int),
                            cur == ops@.take(step as int + 1),
                            cur.drop_last() == prev,
                            cur.last() == ops@[step as int],
                            ops@[step as int] == (FusedOp::QScale {
                                mult: *mult,
                                shift: *shift,
                                policy: *policy,
                            }),
                            acc_after(prev, mi, ni).len() == total,
                            acc_after(cur, mi, ni).len() == total,
                            x <= total,
                            acc@.len() == total,
                            forall|y: int|
                                0 <= y < x ==> acc@[y] == acc_after(cur, mi, ni)[y],
                            forall|y: int|
                                x as int <= y < total ==> acc@[y] == acc_after(prev, mi, ni)[y],
                        decreases total - x,
                    {
                        let cellv = acc[x];
                        let wide = crate::rounding::q_scale_round(cellv, *mult, *shift, *policy);
                        proof {
                            assert(acc_after(cur, mi, ni)[x as int] == q_scale_spec(acc_after(
                                prev, mi, ni)[x as int], *mult as int, *shift as nat, *policy));
                            assert(cell_after(ops@, mi, ni, step as int + 1, x as int)
                                == acc_after(cur, mi, ni)[x as int]);
                            assert(i64::MIN <= cell_after(ops@, mi, ni, step as int + 1, x as int)
                                <= i64::MAX);
                        }
                        let v: i64 = wide as i64;
                        acc[x] = v;
                        x = x + 1;
                    }
                    proof {
                        assert(out_after(cur, mi, ni, old(out)@) == out_after(prev, mi, ni,
                            old(out)@));
                    }
                },
                FusedOp::Store => {
                    proof {
                        assert(ops@[step as int] == FusedOp::Store);
                        lemma_out_len(prev, mi, ni, old(out)@);
                    }
                    let mut x: usize = 0;
                    while x < total
                        invariant
                            run_bounded(ops@, mi, ni),
                            mi == m as int,
                            ni == n as int,
                            total == mi * ni,
                            step < ops@.len(),
                            prev == ops@.take(step as int),
                            cur == ops@.take(step as int + 1),
                            cur.drop_last() == prev,
                            cur.last() == ops@[step as int],
                            ops@[step as int] == FusedOp::Store,
                            acc_after(prev, mi, ni).len() == total,
                            acc_after(cur, mi, ni).len() == total,
                            x <= total,
                            acc@.len() == total,
                            out@.len() == total,
                            forall|y: int|
                                0 <= y < total ==> acc@[y] == acc_after(prev, mi, ni)[y],
                            forall|y: int|
                                0 <= y < x ==> out@[y] == acc_after(prev, mi, ni)[y] as i32,
                            forall|y: int|
                                x as int <= y < total ==> out@[y] == out_after(prev, mi, ni,
                                    old(out)@)[y],
                        decreases total - x,
                    {
                        let cellv = acc[x];
                        proof {
                            assert(cell_after(ops@, mi, ni, step as int, x as int) == acc_after(
                                prev, mi, ni)[x as int]);
                            assert(i32::MIN <= cell_after(ops@, mi, ni, step as int, x as int)
                                <= i32::MAX);
                        }
                        let v: i32 = cellv as i32;
                        out[x] = v;
                        x = x + 1;
                    }
                    proof {
                        assert(out@ =~= out_after(cur, mi, ni, old(out)@));
                        assert(acc_after(cur, mi, ni) =~= acc_after(prev, mi, ni));
                        assert forall|x: int| 0 <= x < total implies acc@[x] == acc_after(cur, mi,
                            ni)[x] by {
                            assert(acc@[x] == acc_after(prev, mi, ni)[x]);
                        };
                    }
                },
            }
            proof {
                assert(ops@.take(step as int + 1) == cur);
                assert forall|x: int|
                    0 <= x < total implies acc@[x] == #[trigger] cell_after(ops@, mi, ni,
                        step as int + 1, x) by {
                    assert(cell_after(ops@, mi, ni, step as int + 1, x) == acc_after(cur, mi,
                        ni)[x]);
                };
                assert(out@ == out_after(cur, mi, ni, old(out)@));
            }
            step = step + 1;
        }
        proof {
            assert(ops@.take(ops@.len() as int) =~= ops@);
        }
        Ok(())
    }
}

/// Splitting a depth range: the dot product over `0..k` is the sum of
/// the dot products over `0..k1` and `k1..k`.
proof fn lemma_dot_split(a: OperandStore, b: OperandStore, i: int, j: int, k1: int, k: int)
    requires
        0 <= k1 <= k,
    ensures
        dot_spec(a, b, i, j, 0, k) == dot_spec(a, b, i, j, 0, k1) + dot_spec(a, b, i, j, k1, k),
    decreases k - k1,
{
    if k <= k1 {
    } else {
        lemma_dot_split(a, b, i, j, k1, k - 1);
    }
}

/// Shifting the origin of a dot product: if `a2`/`b2` read what `a`/`b`
/// hold `off` rows deeper, their dot over `0..hi` is `a`/`b`'s over
/// `off..off+hi`.
proof fn lemma_dot_shift(
    a2: OperandStore,
    b2: OperandStore,
    a: OperandStore,
    b: OperandStore,
    i: int,
    j: int,
    off: int,
    hi: int,
)
    requires
        0 <= hi,
        forall|kk: int| 0 <= kk < hi ==> #[trigger] a2.elem_spec(kk, i) == a.elem_spec(off + kk, i),
        forall|kk: int| 0 <= kk < hi ==> #[trigger] b2.elem_spec(kk, j) == b.elem_spec(off + kk, j),
    ensures
        dot_spec(a2, b2, i, j, 0, hi) == dot_spec(a, b, i, j, off, off + hi),
    decreases hi,
{
    if hi <= 0 {
    } else {
        lemma_dot_shift(a2, b2, a, b, i, j, off, hi - 1);
    }
}

/// Fusion associativity at one output cell: accumulating depth `k` in one
/// step equals splitting the depth at `k1` into two consecutive steps
/// whose stores hold the two depth ranges.
pub proof fn lemma_fusion_associative(
    a: OperandStore,
    b: OperandStore,
    a1: OperandStore,
    b1: OperandStore,
    a2: OperandStore,
    b2: OperandStore,
    i: int,
    j: int,
    k1: int,
    k: int,
)
    requires
        0 <= k1 <= k,
        forall|kk: int| 0 <= kk < k1 ==> #[trigger] a1.elem_spec(kk, i) == a.elem_spec(kk, i),
        forall|kk: int| 0 <= kk < k1 ==> #[trigger] b1.elem_spec(kk, j) == b.elem_spec(kk, j),
        forall|kk: int|
            0 <= kk < k - k1 ==> #[trigger] a2.elem_spec(kk, i) == a.elem_spec(k1 + kk, i),
        forall|kk: int|
            0 <= kk < k - k1 ==> #[trigger] b2.elem_spec(kk, j) == b.elem_spec(k1 + kk, j),
    ensures
        dot_spec(a, b, i, j, 0, k) == dot_spec(a1, b1, i, j, 0, k1) + dot_spec(a2, b2, i, j, 0, k
            - k1),
{
    lemma_dot_split(a, b, i, j, k1, k);
    lemma_dot_shift(a1, b1, a, b, i, j, 0, k1);
    lemma_dot_shift(a2, b2, a, b, i, j, k1, k - k1);
}

/// Fusion associativity at pipeline level: one `AddMatMul` of depth `k`
/// leaves the accumulator tile exactly as the two split steps leave it.
pub proof fn lemma_fusion_associative_pipeline(
    a: OperandStore,
    b: OperandStore,
    a1: OperandStore,
    b1: OperandStore,
    a2: OperandStore,
    b2: OperandStore,
    k1: usize,
    k: usize,
    m: int,
    n: int,
)
    requires
        m >= 0,
        n >= 1,
        k1 <= k,
        forall|kk: int, col: int|
            0 <= kk < k1 && 0 <= col < m ==> #[trigger] a1.elem_spec(kk, col) == a.elem_spec(kk,
                col),
        forall|kk: int, col: int|
            0 <= kk < k1 && 0 <= col < n ==> #[trigger] b1.elem_spec(kk, col) == b.elem_spec(kk,
                col),
        forall|kk: int, col: int|
            0 <= kk < k - k1 && 0 <= col < m ==> #[trigger] a2.elem_spec(kk, col) == a.elem_spec(
                k1 + kk, col),
        forall|kk: int, col: int|
            0 <= kk < k - k1 && 0 <= col < n ==> #[trigger] b2.elem_spec(kk, col) == b.elem_spec(
                k1 + kk, col),
    ensures
        acc_after(seq![FusedOp::AddMatMul { k, a, b }], m, n) == acc_after(
            seq![
                FusedOp::AddMatMul { k: k1, a: a1, b: b1 },
                FusedOp::AddMatMul { k: (k - k1) as usize, a: a2, b: b2 },
            ],
            m,
            n,
        ),
{
    let one = seq![FusedOp::AddMatMul { k, a, b }];
    let two = seq![
        FusedOp::AddMatMul { k: k1, a: a1, b: b1 },
        FusedOp::AddMatMul { k: (k - k1) as usize, a: a2, b: b2 },
    ];
    assert(one.drop_last() =~= Seq::<FusedOp>::empty());
    assert(two.drop_last() =~= seq![FusedOp::AddMatMul { k: k1, a: a1, b: b1 }]);
    assert(two.drop_last().drop_last() =~= Seq::<FusedOp>::empty());
    lemma_acc_len(one, m, n);
    lemma_acc_len(two, m, n);
    let mid = seq![FusedOp::AddMatMul { k: k1, a: a1, b: b1 }];
    lemma_acc_len(mid, m, n);
    assert forall|x: int| 0 <= x < m * n implies acc_after(one, m, n)[x] == acc_after(two, m, n)[x]
    by {
        let i = x / n;
        let j = x % n;
        lemma_multiply_divide_lt_fwd(x, n, m);
        lemma_mod_bound(x, n);
        assert(one.last() == (FusedOp::AddMatMul { k, a, b }));
        assert(acc_after(Seq::<FusedOp>::empty(), m, n) == zero_acc(m, n));
        assert(zero_acc(m, n)[x] == 0);
        assert(acc_after(one, m, n)[x] == zero_acc(m, n)[x] + dot_spec(a, b, i, j, 0, k as int));
        assert(mid.last() == (FusedOp::AddMatMul { k: k1, a: a1, b: b1 }));
        assert(mid.drop_last() =~= Seq::<FusedOp>::empty());
        assert(acc_after(mid, m, n)[x] == zero_acc(m, n)[x] + dot_spec(a1, b1, i, j, 0,
            k1 as int));
        assert(two.drop_last() =~= mid);
        assert(two.last() == (FusedOp::AddMatMul {
            k: (k - k1) as usize,
            a: a2,
            b: b2,
        }));
        assert(acc_after(two, m, n)[x] == acc_after(mid, m, n)[x] + dot_spec(a2, b2, i, j, 0, (k
            - k1) as int));
        lemma_fusion_associative(a, b, a1, b1, a2, b2, i, j, k1 as int, k as int);
    }
    assert(acc_after(one, m, n) =~= acc_after(two, m, n));
}

/// A row index derived from an in-range cell is in range.
proof fn lemma_multiply_divide_lt_fwd(x: int, n: int, m: int)
    requires
        0 <= x < m * n,
        n >= 1,
    ensures
        0 <= x / n < m,
    decreases 0int,
{
    assert(x < n * m) by (nonlinear_arith)
        requires
            x < m * n,
    ;
    vstd::arithmetic::div_mod::lemma_multiply_divide_lt(x, n, m);
    vstd::arithmetic::div_mod::lemma_div_pos_is_pos(x, n);
}

} // verus!
