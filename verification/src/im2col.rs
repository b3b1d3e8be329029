//! Virtual input: on-demand synthesis of packed convolution windows.
//!
//! Lowering a convolution to matrix multiplication expands sliding
//! windows of the input into operand rows (im2col).  Materializing that
//! expansion multiplies memory traffic by the window size, so a virtual
//! operand recomputes each packed element from the original `(channel,
//! row, column)` source coordinates at the moment the kernel consumes it.
//! The correctness invariant: for every valid sub-block, the bytes the
//! on-demand path produces are bit-identical to packing the fully
//! materialized operand.

use vstd::prelude::*;

verus! {

use vstd::arithmetic::div_mod::lemma_fundamental_div_mod_converse;
use vstd::arithmetic::div_mod::lemma_multiply_divide_lt;
use vstd::arithmetic::div_mod::lemma_mod_bound;
use crate::tensor::Tensor;
use crate::tensor::volume_of;
use crate::pack::Packer;
use crate::pack::packed_seq;
use crate::pack::packed_len;
use crate::pack::packed_entry;
use crate::pack::panel_count;
use crate::CoreError;

/// The volume of a three-dimensional shape is the product of its extents.
pub proof fn lemma_volume_3d(c: usize, h: usize, w: usize)
    ensures
        volume_of(seq![c, h, w]) == (c as nat) * ((h as nat) * (w as nat)),
{
    let s = seq![c, h, w];
    assert(s.drop_first() =~= seq![h, w]);
    assert(seq![h, w].drop_first() =~= seq![w]);
    assert(seq![w].drop_first() =~= Seq::<usize>::empty());
    assert(volume_of(Seq::<usize>::empty()) == 1);
    assert(volume_of(seq![w]) == (w as nat) * volume_of(Seq::<usize>::empty()));
    assert(volume_of(seq![h, w]) == (h as nat) * volume_of(seq![w]));
    assert(volume_of(s) == (c as nat) * volume_of(seq![h, w]));
    assert((w as nat) * 1 == w as nat) by (nonlinear_arith);
    assert((h as nat) * ((w as nat) * 1) == (h as nat) * (w as nat)) by (nonlinear_arith);
}

/// The transformation rule of a virtual operand: extract unit-stride,
/// unit-dilation, single-group convolution windows of `kernel_h` x
/// `kernel_w` elements from a channels-height-width source tensor.
#[derive(Clone, Copy, Debug)]
pub struct VirtualInputSpec {
    pub kernel_h: usize,
    pub kernel_w: usize,
}

impl VirtualInputSpec {
    /// Binds the rule to concrete source data.  The source must be a
    /// rank-3 channels-height-width tensor at least as large as the
    /// window; anything else is recoverable model-data damage.
    pub fn wrap(self, source: Tensor) -> (r: Result<VirtualInput, CoreError>)
        requires
            source.wf(),
        ensures
            match r {
                Ok(v) => v.rule == self && v.source@ == source@ && v.wf(),
                Err(e) => e == CoreError::ShapeMismatch && !(VirtualInput {
                    rule: self,
                    source: source,
                }).wf(),
            },
    {
        if source.rank() != 3 {
            return Err(CoreError::ShapeMismatch);
        }
        let ci = source.shape[0];
        let h = source.shape[1];
        let w = source.shape[2];
        if self.kernel_h < 1 || self.kernel_w < 1 || h < self.kernel_h || w < self.kernel_w {
            return Err(CoreError::ShapeMismatch);
        }
        if ci == 0 {
            proof {
                assert(((self.kernel_h * self.kernel_w) as int) * 0 == 0) by (nonlinear_arith);
            }
        } else {
            match self.kernel_h.checked_mul(self.kernel_w) {
                Some(kk) => {
                    match kk.checked_mul(ci) {
                        Some(_) => {
                        },
                        None => {
                            return Err(CoreError::ShapeMismatch);
                        },
                    }
                },
                None => {
                    proof {
                        assert(((self.kernel_h as int) * (self.kernel_w as int)) * (ci as int)
                            > usize::MAX) by (nonlinear_arith)
                            requires
                                (self.kernel_h as int) * (self.kernel_w as int) > usize::MAX
                                    && ci >= 1,
                        ;
                    }
                    return Err(CoreError::ShapeMismatch);
                },
            }
        }
        let oh = h - self.kernel_h + 1;
        let ow = w - self.kernel_w + 1;
        match oh.checked_mul(ow) {
            Some(_) => {
            },
            None => {
                return Err(CoreError::ShapeMismatch);
            },
        }
        Ok(VirtualInput { rule: self, source })
    }
}

/// A virtual operand: a window-extraction rule bound to source data.
/// Logically a `k_extent` x `n_extent` operand whose elements are read
/// straight out of the source tensor.
#[derive(Debug)]
pub struct VirtualInput {
    pub rule: VirtualInputSpec,
    pub source: Tensor,
}

impl VirtualInput {
    /// Input channels.
    pub open spec fn channels(self) -> int {
        self.source.shape@[0] as int
    }

    /// Source height.
    pub open spec fn height(self) -> int {
        self.source.shape@[1] as int
    }

    /// Source width.
    pub open spec fn width(self) -> int {
        self.source.shape@[2] as int
    }

    /// Output rows of the convolution.
    pub open spec fn out_h(self) -> int {
        self.height() - self.rule.kernel_h + 1
    }

    /// Output columns of the convolution.
    pub open spec fn out_w(self) -> int {
        self.width() - self.rule.kernel_w + 1
    }

    /// Depth of the logical operand: window size times channels.
    pub open spec fn k_extent(self) -> int {
        (self.rule.kernel_h * self.rule.kernel_w) as int * self.channels()
    }

    /// Width of the logical operand: one column per output position.
    pub open spec fn n_extent(self) -> int {
        self.out_h() * self.out_w()
    }

    pub open spec fn wf(self) -> bool {
        &&& self.source.wf()
        &&& self.source.shape@.len() == 3
        &&& 1 <= self.rule.kernel_h <= self.height()
        &&& 1 <= self.rule.kernel_w <= self.width()
        &&& self.k_extent() <= usize::MAX
        &&& self.n_extent() <= usize::MAX
    }

    /// Logical element `(kidx, nidx)` of the operand.  `kidx` decomposes
    /// into (kernel row, kernel column, channel) and `nidx` into (output
    /// row, output column); the element read is
    /// `source[channel, output_row + kernel_row, output_col + kernel_col]`.
    pub open spec fn entry_spec(self, kidx: int, nidx: int) -> i32 {
        let kw = self.rule.kernel_w as int;
        let c = kidx % self.channels();
        let rem = kidx / self.channels();
        let kc = rem % kw;
        let kr = rem / kw;
        let oc = nidx % self.out_w();
        let orow = nidx / self.out_w();
        self.source.data@[(c * self.height() + (orow + kr)) * self.width() + (oc + kc)]
    }

    /// The fully materialized operand, `k_extent` x `n_extent` row-major.
    pub open spec fn mat_spec(self) -> Seq<i32> {
        Seq::new(
            (self.k_extent() * self.n_extent()) as nat,
            |idx: int| self.entry_spec(idx / self.n_extent(), idx % self.n_extent()),
        )
    }

    /// The sub-block `k0..k1` x `n0..n1` of the logical operand, as a
    /// row-major matrix of its own.
    pub open spec fn block_spec(self, k0: int, k1: int, n0: int, n1: int) -> Seq<i32> {
        Seq::new(
            ((k1 - k0) * (n1 - n0)) as nat,
            |idx: int| self.entry_spec(k0 + idx / (n1 - n0), n0 + idx % (n1 - n0)),
        )
    }

    /// Computes one logical element straight from the source coordinates.
    pub fn entry(&self, kidx: usize, nidx: usize) -> (v: i32)
        requires
            self.wf(),
            kidx < self.k_extent(),
            nidx < self.n_extent(),
        ensures
            v == self.entry_spec(kidx as int, nidx as int),
    {
        let ci = self.source.shape[0];
        let h = self.source.shape[1];
        let w = self.source.shape[2];
        let kh = self.rule.kernel_h;
        let kw = self.rule.kernel_w;
        proof {
            assert(ci >= 1) by (nonlinear_arith)
                requires
                    (kh as int) * (kw as int) * (ci as int) > kidx as int >= 0,
            ;
            assert((kidx as int) < (ci as int) * ((kh * kw) as int)) by (nonlinear_arith)
                requires
                    (kidx as int) < ((kh * kw) as int) * (ci as int),
            ;
            lemma_multiply_divide_lt(kidx as int, ci as int, (kh * kw) as int);
            lemma_mod_bound(kidx as int, ci as int);
        }
        let c = kidx % ci;
        let rem = kidx / ci;
        proof {
            assert((rem as int) < (kw as int) * (kh as int)) by (nonlinear_arith)
                requires
                    (rem as int) < (kh as int) * (kw as int),
            ;
            lemma_multiply_divide_lt(rem as int, kw as int, kh as int);
            lemma_mod_bound(rem as int, kw as int);
        }
        let kc = rem % kw;
        let kr = rem / kw;
        let oh = h - kh + 1;
        let ow = w - kw + 1;
        let dlen = self.source.data.len();
        proof {
            assert((nidx as int) < (ow as int) * (oh as int)) by (nonlinear_arith)
                requires
                    (nidx as int) < (oh as int) * (ow as int),
            ;
            lemma_multiply_divide_lt(nidx as int, ow as int, oh as int);
            lemma_mod_bound(nidx as int, ow as int);
        }
        let oc = nidx % ow;
        let orow = nidx / ow;
        proof {
            lemma_volume_3d(ci, h, w);
            let cc = c as int;
            let yy = orow as int + kr as int;
            let xx = oc as int + kc as int;
            assert(0 <= yy < h as int);
            assert(0 <= xx < w as int);
            assert((cc * (h as int) + yy) * (w as int) + xx < (ci as int) * ((h as int) * (
            w as int))) by (nonlinear_arith)
                requires
                    0 <= cc < ci as int && 0 <= yy < h as int && 0 <= xx < w as int,
            ;
            assert((cc * (h as int) + yy) * (w as int) + xx >= 0 && cc * (h as int) + yy <= (cc
                * (h as int) + yy) * (w as int) + xx && cc * (h as int) <= cc * (h as int) + yy)
                by (nonlinear_arith)
                requires
                    cc >= 0 && yy >= 0 && xx >= 0 && h as int >= 0 && w as int >= 1,
            ;
            assert(dlen == self.source.data@.len());
            assert(self.source.shape@ =~= seq![ci, h, w]);
            assert(self.source.data@.len() == (ci as nat) * ((h as nat) * (w as nat)));
        }
        self.source.data[(c * h + (orow + kr)) * w + (oc + kc)]
    }

    /// The explicit im2col expansion.  The virtual path exists to avoid
    /// this buffer; it stands as the reference the on-demand path is
    /// held to.
    pub fn materialized(&self) -> (m: Vec<i32>)
        requires
            self.wf(),
            self.k_extent() * self.n_extent() <= usize::MAX,
        ensures
            m@ == self.mat_spec(),
    {
        let k_total = self.k_extent_exec();
        let n_total = self.n_extent_exec();
        let mut m: Vec<i32> = Vec::new();
        let mut kidx: usize = 0;
        while kidx < k_total
            invariant
                self.wf(),
                self.k_extent() * self.n_extent() <= usize::MAX,
                k_total == self.k_extent(),
                n_total == self.n_extent(),
                kidx <= k_total,
                m@.len() == (kidx as int) * (n_total as int),
                forall|x: int| 0 <= x < m@.len() ==> m@[x] == self.mat_spec()[x],
            decreases k_total - kidx,
        {
            let mut nidx: usize = 0;
            while nidx < n_total
                invariant
                    self.wf(),
                    self.k_extent() * self.n_extent() <= usize::MAX,
                    k_total == self.k_extent(),
                    n_total == self.n_extent(),
                    kidx < k_total,
                    nidx <= n_total,
                    m@.len() == (kidx as int) * (n_total as int) + nidx as int,
                    forall|x: int| 0 <= x < m@.len() ==> m@[x] == self.mat_spec()[x],
                decreases n_total - nidx,
            {
                let v = self.entry(kidx, nidx);
                proof {
                    let idx = m@.len() as int;
                    lemma_fundamental_div_mod_converse(idx, n_total as int, kidx as int,
                        nidx as int);
                    assert((kidx as int) * (n_total as int) + (nidx as int) < (k_total as int) * (
                    n_total as int)) by (nonlinear_arith)
                        requires
                            kidx < k_total && nidx < n_total,
                    ;
                    assert(self.mat_spec()[idx] == v);
                }
                m.push(v);
                nidx = nidx + 1;
            }
            proof {
                assert((kidx as int + 1) * (n_total as int) == (kidx as int) * (n_total as int)
                    + n_total as int) by (nonlinear_arith);
            }
            kidx = kidx + 1;
        }
        proof {
            assert(m@ =~= self.mat_spec());
        }
        m
    }

    /// Depth of the logical operand.
    pub fn k_extent_exec(&self) -> (k: usize)
        requires
            self.wf(),
        ensures
            k == self.k_extent(),
    {
        proof {
            assert((self.rule.kernel_h as int) * (self.rule.kernel_w as int) * (
            self.source.shape@[0] as int) <= usize::MAX) by (nonlinear_arith)
                requires
                    ((self.rule.kernel_h * self.rule.kernel_w) as int) * (
                    self.source.shape@[0] as int) <= usize::MAX,
            ;
            assert((self.rule.kernel_h as int) * (self.rule.kernel_w as int) <= usize::MAX || (
            self.source.shape@[0] as int) == 0) by (nonlinear_arith)
                requires
                    ((self.rule.kernel_h as int) * (self.rule.kernel_w as int)) * (
                    self.source.shape@[0] as int) <= usize::MAX && self.source.shape@[0] >= 0,
            ;
        }
        if self.source.shape[0] == 0 {
            proof {
                assert(((self.rule.kernel_h * self.rule.kernel_w) as int) * 0 == 0) by (
                nonlinear_arith);
            }
            return 0;
        }
        self.rule.kernel_h * self.rule.kernel_w * self.source.shape[0]
    }

    /// Width of the logical operand.
    pub fn n_extent_exec(&self) -> (n: usize)
        requires
            self.wf(),
        ensures
            n == self.n_extent(),
    {
        let oh = self.source.shape[1] - self.rule.kernel_h + 1;
        let ow = self.source.shape[2] - self.rule.kernel_w + 1;
        oh * ow
    }

    /// Writes the packed image of the sub-block `k0..k1` x `n0..n1` of
    /// the logical operand into `dst`, exactly as the packer would write
    /// it from the materialized block.  Ranges outside the logical extent
    /// are the caller's bookkeeping error and are excluded outright.
    pub fn input(
        &self,
        packer: &Packer,
        dst: &mut Vec<i32>,
        k0: usize,
        k1: usize,
        n0: usize,
        n1: usize,
    )
        requires
            self.wf(),
            packer.wf(),
            k0 <= k1 <= self.k_extent(),
            n0 <= n1 <= self.n_extent(),
            (n1 - n0) + packer.r <= usize::MAX,
            packed_len((k1 - k0) as nat, (n1 - n0) as nat, packer.r as nat) <= usize::MAX,
        ensures
            final(dst)@ == packed_seq(
                self.block_spec(k0 as int, k1 as int, n0 as int, n1 as int),
                (k1 - k0) as nat,
                (n1 - n0) as nat,
                packer.r as nat,
            ),
    {
        let r = packer.r;
        let dk = k1 - k0;
        let dn = n1 - n0;
        let ghost block = self.block_spec(k0 as int, k1 as int, n0 as int, n1 as int);
        let panels = (dn + r - 1) / r;
        proof {
            assert(panels == panel_count(dn as nat, r as nat));
        }
        dst.clear();
        let mut p: usize = 0;
        while p < panels
            invariant
                self.wf(),
                r == packer.r,
                r >= 1,
                panels == panel_count(dn as nat, r as nat),
                dk == k1 - k0,
                dn == n1 - n0,
                k0 <= k1 <= self.k_extent(),
                n0 <= n1 <= self.n_extent(),
                dn + r <= usize::MAX,
                packed_len(dk as nat, dn as nat, r as nat) <= usize::MAX,
                block == self.block_spec(k0 as int, k1 as int, n0 as int, n1 as int),
                p <= panels,
                dst@.len() == (p as int) * ((dk as int) * (r as int)),
                forall|x: int|
                    0 <= x < dst@.len() ==> dst@[x] == packed_entry(block, dk as nat, dn as nat,
                        r as nat, x),
            decreases panels - p,
        {
            let mut row: usize = 0;
            while row < dk
                invariant
                    self.wf(),
                    r == packer.r,
                    r >= 1,
                    panels == panel_count(dn as nat, r as nat),
                    dk == k1 - k0,
                    dn == n1 - n0,
                    k0 <= k1 <= self.k_extent(),
                    n0 <= n1 <= self.n_extent(),
                    dn + r <= usize::MAX,
                    packed_len(dk as nat, dn as nat, r as nat) <= usize::MAX,
                    block == self.block_spec(k0 as int, k1 as int, n0 as int, n1 as int),
                    p < panels,
                    row <= dk,
                    dst@.len() == (p as int) * ((dk as int) * (r as int)) + (row as int) * (
                    r as int),
                    forall|x: int|
                        0 <= x < dst@.len() ==> dst@[x] == packed_entry(block, dk as nat,
                            dn as nat, r as nat, x),
                decreases dk - row,
            {
                let mut lane: usize = 0;
                while lane < r
                    invariant
                        self.wf(),
                        r == packer.r,
                        r >= 1,
                        panels == panel_count(dn as nat, r as nat),
                        dk == k1 - k0,
                        dn == n1 - n0,
                        k0 <= k1 <= self.k_extent(),
                        n0 <= n1 <= self.n_extent(),
                        dn + r <= usize::MAX,
                        packed_len(dk as nat, dn as nat, r as nat) <= usize::MAX,
                        block == self.block_spec(k0 as int, k1 as int, n0 as int, n1 as int),
                        p < panels,
                        row < dk,
                        lane <= r,
                        dst@.len() == (p as int) * ((dk as int) * (r as int)) + (row as int) * (
                        r as int) + lane as int,
                        forall|x: int|
                            0 <= x < dst@.len() ==> dst@[x] == packed_entry(block, dk as nat,
                                dn as nat, r as nat, x),
                    decreases r - lane,
                {
                    proof {
                        assert((p as int) * (r as int) + (lane as int) < (panels as int) * (
                        r as int)) by (nonlinear_arith)
                            requires
                                p < panels && lane < r,
                        ;
                        assert((panels as int) * (r as int) <= (panels as int) * (dk as int) * (
                        r as int)) by (nonlinear_arith)
                            requires
                                dk >= 1 && panels >= 0 && r >= 0,
                        ;
                        assert(packed_len(dk as nat, dn as nat, r as nat) == (panels as int) * (
                        dk as int) * (r as int));
                    }
                    let col = p * r + lane;
                    let v: i32 = if col < dn {
                        proof {
                            let bidx = (row as int) * (dn as int) + col as int;
                            lemma_fundamental_div_mod_converse(bidx, dn as int, row as int,
                                col as int);
                            assert((row as int) * (dn as int) + (col as int) < (dk as int) * (
                            dn as int)) by (nonlinear_arith)
                                requires
                                    row < dk && col < dn && 0 <= row && 0 <= col,
                            ;
                            assert((row as int) * (dn as int) + (col as int) >= 0) by (
                            nonlinear_arith)
                                requires
                                    row >= 0 && dn >= 0 && col >= 0,
                            ;
                            assert(block[bidx] == self.entry_spec(k0 + row as int, n0
                                + col as int));
                        }
                        self.entry(k0 + row, n0 + col)
                    } else {
                        0
                    };
                    proof {
                        let idx = dst@.len() as int;
                        crate::pack::lemma_panel_position(p as int, row as int, lane as int,
                            dk as int, r as int);
                        assert(packed_entry(block, dk as nat, dn as nat, r as nat, idx) == v);
                    }
                    dst.push(v);
                    lane = lane + 1;
                }
                proof {
                    assert((row as int + 1) * (r as int) == (row as int) * (r as int) + r as int)
                        by (nonlinear_arith);
                }
                row = row + 1;
            }
            proof {
                assert((p as int + 1) * ((dk as int) * (r as int)) == (p as int) * ((dk as int) * (
                r as int)) + (dk as int) * (r as int)) by (nonlinear_arith);
            }
            p = p + 1;
        }
        proof {
            assert(dst@.len() == packed_len(dk as nat, dn as nat, r as nat)) by {
                assert((panels as int) * ((dk as int) * (r as int)) == (panels as int) * (dk as int)
                    * (r as int)) by (nonlinear_arith);
            }
            assert(dst@ =~= packed_seq(block, dk as nat, dn as nat, r as nat));
        }
    }
}

/// Virtual-input equivalence: over the full logical extent, the block the
/// on-demand path is specified to produce is exactly the packer's image
/// of the materialized operand, for every panel width.
pub proof fn lemma_virtual_matches_packed(v: VirtualInput, r: nat)
    requires
        v.wf(),
    ensures
        packed_seq(v.block_spec(0, v.k_extent(), 0, v.n_extent()), v.k_extent() as nat,
            v.n_extent() as nat, r) == packed_seq(v.mat_spec(), v.k_extent() as nat,
            v.n_extent() as nat, r),
{
    assert(v.block_spec(0, v.k_extent(), 0, v.n_extent()) =~= v.mat_spec());
}

} // verus!
