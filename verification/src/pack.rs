//! The packer: blocked, panel-major operand layout.
//!
//! Kernels read their operands from fixed-size panels sized to the
//! register tile.  A packed buffer for a `k` x `n` operand at panel width
//! `r` holds one panel per `r` columns; inside a panel the `k` rows
//! follow each other, `r` lanes wide, and columns past the operand's edge
//! are padded with zeros.  Packing is pure data rearrangement: the buffer
//! contents are fully determined by the operand, its extents and the
//! panel width.

use vstd::prelude::*;

verus! {

use vstd::arithmetic::div_mod::lemma_fundamental_div_mod_converse;
use crate::tensor::Tensor;
use crate::tensor::volume_of;

/// Number of panels needed to cover `n` columns with panels `r` wide.
pub open spec fn panel_count(n: nat, r: nat) -> nat
    recommends
        r >= 1,
{
    ((n as int + r as int - 1) / (r as int)) as nat
}

/// Elements in the packed image of a `k` x `n` operand at panel width
/// `r`: every panel holds `k` rows of `r` lanes.
pub open spec fn packed_len(k: nat, n: nat, r: nat) -> nat
    recommends
        r >= 1,
{
    panel_count(n, r) * k * r
}

/// Element `idx` of the packed layout: panel-major, then row, then lane.
/// Lanes whose column lies past the operand's edge hold zero.
pub open spec fn packed_entry(src: Seq<i32>, k: nat, n: nat, r: nat, idx: int) -> i32
    recommends
        r >= 1,
        k >= 1,
{
    let panel = idx / ((k * r) as int);
    let rem = idx % ((k * r) as int);
    let row = rem / (r as int);
    let lane = rem % (r as int);
    let col = panel * (r as int) + lane;
    if col < n {
        src[row * (n as int) + col]
    } else {
        0
    }
}

/// The packed image of a `k` x `n` row-major operand.
pub open spec fn packed_seq(src: Seq<i32>, k: nat, n: nat, r: nat) -> Seq<i32> {
    Seq::new(packed_len(k, n, r), |idx: int| packed_entry(src, k, n, r, idx))
}

/// Recovering panel, row and lane from a flat position of the packed
/// layout.
pub proof fn lemma_panel_position(p: int, row: int, lane: int, k: int, r: int)
    requires
        0 <= p,
        0 <= row < k,
        0 <= lane < r,
    ensures
        ({
            let idx = p * (k * r) + row * r + lane;
            idx / (k * r) == p && (idx % (k * r)) / r == row && (idx % (k * r)) % r == lane
        }),
{
    let idx = p * (k * r) + row * r + lane;
    assert(0 <= row * r + lane < k * r) by (nonlinear_arith)
        requires
            0 <= row < k && 0 <= lane < r,
    ;
    assert(idx == p * (k * r) + (row * r + lane));
    lemma_fundamental_div_mod_converse(idx, k * r, p, row * r + lane);
    lemma_fundamental_div_mod_converse(row * r + lane, r, row, lane);
}

/// The volume of a two-dimensional shape is the product of its extents.
pub proof fn lemma_volume_2d(k: usize, n: usize)
    ensures
        volume_of(seq![k, n]) == (k as nat) * (n as nat),
{
    let s = seq![k, n];
    assert(s.drop_first() =~= seq![n]);
    assert(seq![n].drop_first() =~= Seq::<usize>::empty());
    assert(volume_of(Seq::<usize>::empty()) == 1);
    assert(volume_of(seq![n]) == (n as nat) * 1);
    assert((k as nat) * ((n as nat) * 1) == (k as nat) * (n as nat)) by (nonlinear_arith);
}

/// A packer rearranges a logical 2-D operand into fixed-size panels
/// matched to a kernel's register tile.
#[derive(Clone, Copy, Debug)]
pub struct Packer {
    /// Panel width: the kernel's native register-tile block.
    pub r: usize,
    /// Minimum byte alignment destination buffers must satisfy.
    pub align: usize,
}

impl Packer {
    /// A panel must hold at least one lane.
    pub open spec fn wf(self) -> bool {
        self.r >= 1
    }

    pub fn new(r: usize, align: usize) -> (p: Packer)
        requires
            r >= 1,
        ensures
            p.r == r,
            p.align == align,
            p.wf(),
    {
        Packer { r, align }
    }

    /// Minimum byte alignment the destination buffer must satisfy.
    pub fn alignment(&self) -> (a: usize)
        ensures
            a == self.align,
    {
        self.align
    }

    /// Buffer size in elements needed to pack a `k` x `n` operand.
    pub fn len(&self, k: usize, n: usize) -> (l: usize)
        requires
            self.wf(),
            n + self.r <= usize::MAX,
            packed_len(k as nat, n as nat, self.r as nat) <= usize::MAX,
        ensures
            l == packed_len(k as nat, n as nat, self.r as nat),
    {
        let panels = (n + self.r - 1) / self.r;
        proof {
            assert(panels == panel_count(n as nat, self.r as nat));
            assert((panels as int) * (k as int) <= (panels as int) * (k as int) * (self.r as int))
                by (nonlinear_arith)
                requires
                    self.r >= 1 && panels >= 0 && k >= 0,
            ;
        }
        panels * k * self.r
    }

    /// Packs a `k` x `n` row-major operand into `dst`, replacing its
    /// contents with the panel-major image.  Writes only inside `dst` and
    /// reads only inside the declared source extent.
    pub fn pack(&self, dst: &mut Vec<i32>, src: &Tensor, k: usize, n: usize)
        requires
            self.wf(),
            src.wf(),
            src.shape@ == seq![k, n],
            n + self.r <= usize::MAX,
            packed_len(k as nat, n as nat, self.r as nat) <= usize::MAX,
        ensures
            final(dst)@ == packed_seq(src.data@, k as nat, n as nat, self.r as nat),
    {
        let r = self.r;
        let panels = (n + r - 1) / r;
        proof {
            assert(panels == panel_count(n as nat, r as nat));
            lemma_volume_2d(k, n);
        }
        dst.clear();
        let src_len: usize = src.data.len();
        let mut p: usize = 0;
        while p < panels
            invariant
                r == self.r,
                r >= 1,
                panels == panel_count(n as nat, r as nat),
                src.wf(),
                src.shape@ == seq![k, n],
                src.data@.len() == (k as nat) * (n as nat),
                src_len == src.data@.len(),
                n + r <= usize::MAX,
                packed_len(k as nat, n as nat, r as nat) <= usize::MAX,
                p <= panels,
                dst@.len() == (p as int) * ((k as int) * (r as int)),
                forall|x: int|
                    0 <= x < dst@.len() ==> dst@[x] == packed_entry(src.data@, k as nat, n as nat,
                        r as nat, x),
            decreases panels - p,
        {
            let mut row: usize = 0;
            while row < k
                invariant
                    r == self.r,
                    r >= 1,
                    panels == panel_count(n as nat, r as nat),
                    src.wf(),
                    src.shape@ == seq![k, n],
                    src.data@.len() == (k as nat) * (n as nat),
                    src_len == src.data@.len(),
                    n + r <= usize::MAX,
                    packed_len(k as nat, n as nat, r as nat) <= usize::MAX,
                    p < panels,
                    row <= k,
                    dst@.len() == (p as int) * ((k as int) * (r as int)) + (row as int) * (
                    r as int),
                    forall|x: int|
                        0 <= x < dst@.len() ==> dst@[x] == packed_entry(src.data@, k as nat,
                            n as nat, r as nat, x),
                decreases k - row,
            {
                let mut lane: usize = 0;
                while lane < r
                    invariant
                        r == self.r,
                        r >= 1,
                        panels == panel_count(n as nat, r as nat),
                        src.wf(),
                        src.shape@ == seq![k, n],
                        src.data@.len() == (k as nat) * (n as nat),
                        src_len == src.data@.len(),
                        n + r <= usize::MAX,
                        packed_len(k as nat, n as nat, r as nat) <= usize::MAX,
                        p < panels,
                        row < k,
                        lane <= r,
                        dst@.len() == (p as int) * ((k as int) * (r as int)) + (row as int) * (
                        r as int) + lane as int,
                        forall|x: int|
                            0 <= x < dst@.len() ==> dst@[x] == packed_entry(src.data@, k as nat,
                                n as nat, r as nat, x),
                    decreases r - lane,
                {
                    proof {
                        assert((p as int) * (r as int) + (lane as int) < (panels as int) * (
                        r as int)) by (nonlinear_arith)
                            requires
                                p < panels && lane < r,
                        ;
                        assert((panels as int) * (r as int) <= (panels as int) * (k as int) * (
                        r as int)) by (nonlinear_arith)
                            requires
                                k >= 1 && panels >= 0 && r >= 0,
                        ;
                        assert(packed_len(k as nat, n as nat, r as nat) == (panels as int) * (
                        k as int) * (r as int));
                    }
                    let col = p * r + lane;
                    let v: i32 = if col < n {
                        proof {
                            assert((row as int) * (n as int) + (col as int) < (k as int) * (
                            n as int)) by (nonlinear_arith)
                                requires
                                    row < k && col < n,
                            ;
                            assert((row as int) * (n as int) >= 0) by (nonlinear_arith)
                                requires
                                    row >= 0 && n >= 0,
                            ;
                        }
                        src.data[row * n + col]
                    } else {
                        0
                    };
                    proof {
                        let idx = dst@.len() as int;
                        assert(idx == (p as int) * ((k as int) * (r as int)) + (row as int) * (
                        r as int) + lane as int);
                        lemma_panel_position(p as int, row as int, lane as int, k as int,
                            r as int);
                        assert(packed_entry(src.data@, k as nat, n as nat, r as nat, idx) == v);
                    }
                    dst.push(v);
                    lane = lane + 1;
                }
                proof {
                    assert((row as int + 1) * (r as int) == (row as int) * (r as int) + r as int)
                        by (nonlinear_arith);
                }
                row = row + 1;
            }
            proof {
                assert((p as int + 1) * ((k as int) * (r as int)) == (p as int) * ((k as int) * (
                r as int)) + (k as int) * (r as int)) by (nonlinear_arith);
            }
            p = p + 1;
        }
        proof {
            assert(dst@.len() == packed_len(k as nat, n as nat, r as nat)) by {
                assert((panels as int) * ((k as int) * (r as int)) == (panels as int) * (k as int)
                    * (r as int)) by (nonlinear_arith);
            }
            assert(dst@ =~= packed_seq(src.data@, k as nat, n as nat, r as nat));
        }
    }
}

/// Packing idempotence: two packings of the same logical operand with the
/// same extents and panel width are element-identical buffers.
pub proof fn lemma_pack_idempotent(
    b1: Seq<i32>,
    b2: Seq<i32>,
    src: Seq<i32>,
    k: nat,
    n: nat,
    r: nat,
)
    requires
        b1 == packed_seq(src, k, n, r),
        b2 == packed_seq(src, k, n, r),
    ensures
        b1 == b2,
{
}

} // verus!
