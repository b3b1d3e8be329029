//! Tensors and tensor views.
//!
//! A [`Tensor`] owns element data laid out row-major under a shape.  A
//! [`TensorView`] is the owned-or-shared handle the operator layer passes
//! around; sharing wraps the tensor in an [`Arc`] so that a view can be
//! duplicated without copying element data.

use vstd::prelude::*;
use std::sync::Arc;

verus! {

use vstd::arithmetic::mul::lemma_mul_inequality;
use vstd::arithmetic::mul::lemma_mul_nonnegative;
use crate::CoreError;

/// Row-major volume of a shape: the product of its dimensions.
pub open spec fn volume_of(shape: Seq<usize>) -> nat
    decreases shape.len(),
{
    if shape.len() == 0 {
        1
    } else {
        (shape[0] as nat) * volume_of(shape.drop_first())
    }
}

/// Row-major flat index of `coords` under `shape`.
pub open spec fn flat_index_of(shape: Seq<usize>, coords: Seq<usize>) -> int
    decreases shape.len(),
{
    if shape.len() == 0 {
        0
    } else {
        (coords[0] as int) * (volume_of(shape.drop_first()) as int) + flat_index_of(
            shape.drop_first(),
            coords.drop_first(),
        )
    }
}

/// Every coordinate addresses a valid position of the shape.
pub open spec fn coords_in_bounds(shape: Seq<usize>, coords: Seq<usize>) -> bool {
    &&& coords.len() == shape.len()
    &&& forall|i: int| 0 <= i < shape.len() ==> coords[i] < shape[i]
}

/// A shape with a zero dimension has volume zero.
proof fn lemma_volume_zero(shape: Seq<usize>, j: int)
    requires
        0 <= j < shape.len(),
        shape[j] == 0,
    ensures
        volume_of(shape) == 0,
    decreases shape.len(),
{
    if j == 0 {
    } else {
        lemma_volume_zero(shape.drop_first(), j - 1);
    }
}

/// A shape whose dimensions are all positive has positive volume.
proof fn lemma_volume_pos(shape: Seq<usize>)
    requires
        forall|i: int| 0 <= i < shape.len() ==> shape[i] >= 1,
    ensures
        volume_of(shape) >= 1,
    decreases shape.len(),
{
    if shape.len() == 0 {
    } else {
        lemma_volume_pos(shape.drop_first());
        assert(volume_of(shape) == (shape[0] as nat) * volume_of(shape.drop_first()));
        lemma_mul_inequality(1, shape[0] as int, volume_of(shape.drop_first()) as int);
    }
}

/// Unfolding the volume of a shape suffix by one dimension.
proof fn lemma_volume_unfold(shape: Seq<usize>, i: int)
    requires
        0 <= i < shape.len(),
    ensures
        volume_of(shape.skip(i)) == (shape[i] as nat) * volume_of(shape.skip(i + 1)),
{
    assert(shape.skip(i).drop_first() =~= shape.skip(i + 1));
    assert(shape.skip(i)[0] == shape[i]);
}

/// Unfolding the flat index over a shape suffix by one dimension.
proof fn lemma_flat_unfold(shape: Seq<usize>, coords: Seq<usize>, i: int)
    requires
        0 <= i < shape.len(),
        coords.len() == shape.len(),
    ensures
        flat_index_of(shape.skip(i), coords.skip(i)) == (coords[i] as int) * (volume_of(
            shape.skip(i + 1),
        ) as int) + flat_index_of(shape.skip(i + 1), coords.skip(i + 1)),
{
    assert(shape.skip(i).drop_first() =~= shape.skip(i + 1));
    assert(coords.skip(i).drop_first() =~= coords.skip(i + 1));
    assert(shape.skip(i)[0] == shape[i]);
    assert(coords.skip(i)[0] == coords[i]);
}

/// In-bounds coordinates produce a flat index inside the volume.
pub proof fn lemma_flat_index_bounds(shape: Seq<usize>, coords: Seq<usize>)
    requires
        coords_in_bounds(shape, coords),
    ensures
        0 <= flat_index_of(shape, coords) < volume_of(shape),
    decreases shape.len(),
{
    if shape.len() == 0 {
    } else {
        assert(coords_in_bounds(shape.drop_first(), coords.drop_first()));
        lemma_flat_index_bounds(shape.drop_first(), coords.drop_first());
        let v = volume_of(shape.drop_first()) as int;
        let c0 = coords[0] as int;
        let d0 = shape[0] as int;
        lemma_mul_nonnegative(c0, v);
        lemma_mul_inequality(c0, d0 - 1, v);
        assert((d0 - 1) * v + v == d0 * v) by (nonlinear_arith);
        assert(volume_of(shape) == (shape[0] as nat) * volume_of(shape.drop_first()));
    }
}

/// An owned tensor: element data laid out row-major under a shape.
#[derive(Debug)]
pub struct Tensor {
    pub shape: Vec<usize>,
    pub data: Vec<i32>,
}

impl View for Tensor {
    type V = (Seq<usize>, Seq<i32>);

    open spec fn view(&self) -> (Seq<usize>, Seq<i32>) {
        (self.shape@, self.data@)
    }
}

impl Clone for Tensor {
    fn clone(&self) -> (r: Self)
        ensures
            r@ == self@,
    {
        let shape = self.shape.clone();
        let data = self.data.clone();
        proof {
            assert(shape@ =~= self.shape@);
            assert(data@ =~= self.data@);
        }
        Tensor { shape, data }
    }
}

impl Tensor {
    /// The flat data holds exactly one element per coordinate of the shape.
    pub open spec fn wf(self) -> bool {
        self.data@.len() == volume_of(self.shape@)
    }

    /// Element at `coords`, by row-major layout.
    pub open spec fn at_spec(self, coords: Seq<usize>) -> i32 {
        self.data@[flat_index_of(self.shape@, coords)]
    }

    /// Builds a tensor, checking that the data length matches the shape's
    /// volume; a mismatch is recoverable model-data damage.
    pub fn new(shape: Vec<usize>, data: Vec<i32>) -> (r: Result<Tensor, CoreError>)
        ensures
            match r {
                Ok(t) => t.shape@ == shape@ && t.data@ == data@ && t.wf(),
                Err(e) => e == CoreError::ShapeMismatch && data@.len() != volume_of(shape@),
            },
    {
        let data_len: usize = data.len();
        let mut has_zero: bool = false;
        let mut i: usize = 0;
        while i < shape.len()
            invariant
                i <= shape@.len(),
                has_zero <==> exists|j: int| 0 <= j < i && shape@[j] == 0,
            decreases shape@.len() - i,
        {
            if shape[i] == 0 {
                has_zero = true;
            }
            i = i + 1;
        }
        if has_zero {
            proof {
                let j = choose|j: int| 0 <= j < shape@.len() && shape@[j] == 0;
                lemma_volume_zero(shape@, j);
            }
            if data.len() == 0 {
                return Ok(Tensor { shape, data });
            } else {
                return Err(CoreError::ShapeMismatch);
            }
        }
        let mut acc: usize = 1;
        let mut k: usize = 0;
        proof {
            assert(shape@.skip(0) =~= shape@);
        }
        while k < shape.len()
            invariant
                k <= shape@.len(),
                data_len == data@.len(),
                forall|j: int| 0 <= j < shape@.len() ==> shape@[j] >= 1,
                (acc as nat) * volume_of(shape@.skip(k as int)) == volume_of(shape@),
                acc >= 1,
            decreases shape@.len() - k,
        {
            let ghost tail = volume_of(shape@.skip(k as int + 1)) as int;
            proof {
                lemma_volume_unfold(shape@, k as int);
                assert(forall|j: int|
                    0 <= j < shape@.skip(k as int + 1).len() ==> #[trigger] shape@.skip(
                        k as int + 1,
                    )[j] >= 1);
                lemma_volume_pos(shape@.skip(k as int + 1));
            }
            match acc.checked_mul(shape[k]) {
                Some(next) => {
                    proof {
                        assert((next as int) * tail == (acc as int) * ((shape@[k as int] as int)
                            * tail)) by (nonlinear_arith)
                            requires
                                next == (acc as int) * (shape@[k as int] as int),
                        ;
                        assert(next >= 1) by (nonlinear_arith)
                            requires
                                next == (acc as int) * (shape@[k as int] as int) && acc >= 1
                                    && shape@[k as int] >= 1,
                        ;
                    }
                    acc = next;
                },
                None => {
                    proof {
                        let a = acc as int;
                        let d = shape@[k as int] as int;
                        assert(a * (d * tail) >= a * d) by (nonlinear_arith)
                            requires
                                a >= 1 && d >= 1 && tail >= 1,
                        ;
                        assert(volume_of(shape@) > usize::MAX);
                        assert(data@.len() != volume_of(shape@));
                    }
                    return Err(CoreError::ShapeMismatch);
                },
            }
            k = k + 1;
        }
        proof {
            assert(k == shape@.len());
            assert(shape@.skip(k as int) =~= Seq::<usize>::empty());
            assert(volume_of(Seq::<usize>::empty()) == 1);
            assert((acc as int) * 1 == acc as int) by (nonlinear_arith);
            assert(acc as nat == volume_of(shape@));
        }
        if data.len() == acc {
            Ok(Tensor { shape, data })
        } else {
            Err(CoreError::ShapeMismatch)
        }
    }

    /// Random element access by coordinate.
    pub fn at(&self, coords: &Vec<usize>) -> (r: i32)
        requires
            self.wf(),
            coords_in_bounds(self.shape@, coords@),
        ensures
            r == self.at_spec(coords@),
    {
        proof {
            lemma_flat_index_bounds(self.shape@, coords@);
            assert(self.shape@.skip(0) =~= self.shape@);
            assert(coords@.skip(0) =~= coords@);
        }
        let ghost full = flat_index_of(self.shape@, coords@);
        let data_len: usize = self.data.len();
        let mut idx: usize = 0;
        let mut i: usize = 0;
        while i < coords.len()
            invariant
                i <= coords@.len(),
                self.wf(),
                data_len == self.data@.len(),
                coords_in_bounds(self.shape@, coords@),
                full == flat_index_of(self.shape@, coords@),
                0 <= full < self.data@.len(),
                (idx as int) * (volume_of(self.shape@.skip(i as int)) as int) + flat_index_of(
                    self.shape@.skip(i as int),
                    coords@.skip(i as int),
                ) == full,
                idx <= full,
            decreases coords@.len() - i,
        {
            let ghost tail = volume_of(self.shape@.skip(i as int + 1)) as int;
            let ghost ftail = flat_index_of(self.shape@.skip(i as int + 1), coords@.skip(
                i as int + 1,
            ));
            proof {
                lemma_volume_unfold(self.shape@, i as int);
                lemma_flat_unfold(self.shape@, coords@, i as int);
                assert(coords_in_bounds(self.shape@.skip(i as int + 1), coords@.skip(
                    i as int + 1,
                )));
                lemma_flat_index_bounds(self.shape@.skip(i as int + 1), coords@.skip(
                    i as int + 1,
                ));
                lemma_volume_pos(self.shape@.skip(i as int + 1));
                let a = idx as int;
                let d = self.shape@[i as int] as int;
                let c = coords@[i as int] as int;
                assert(a * d + c >= 0) by (nonlinear_arith)
                    requires
                        a >= 0 && d >= 0 && c >= 0,
                ;
                assert((a * d + c) * tail + ftail == a * (d * tail) + (c * tail + ftail)) by (
                nonlinear_arith);
                assert((a * d + c) * tail >= a * d + c) by (nonlinear_arith)
                    requires
                        tail >= 1 && a * d + c >= 0,
                ;
                assert(0 <= ftail);
                assert(a * d + c <= full);
            }
            idx = idx * self.shape[i] + coords[i];
            i = i + 1;
        }
        proof {
            assert(i == coords@.len());
            assert(self.shape@.skip(i as int) =~= Seq::<usize>::empty());
            assert(coords@.skip(i as int) =~= Seq::<usize>::empty());
            assert(volume_of(Seq::<usize>::empty()) == 1);
            assert(flat_index_of(Seq::<usize>::empty(), Seq::<usize>::empty()) == 0);
            assert((idx as int) * 1 == idx as int) by (nonlinear_arith);
            assert(idx == full);
        }
        self.data[idx]
    }

    /// Number of dimensions.
    pub fn rank(&self) -> (r: usize)
        ensures
            r == self.shape@.len(),
    {
        self.shape.len()
    }
}

/// The owned-or-shared tensor handle the operator layer passes around.
#[derive(Debug)]
pub enum TensorView {
    Owned(Tensor),
    Shared(Arc<Tensor>),
}

impl View for TensorView {
    type V = (Seq<usize>, Seq<i32>);

    open spec fn view(&self) -> (Seq<usize>, Seq<i32>) {
        match self {
            TensorView::Owned(t) => t@,
            TensorView::Shared(a) => a@,
        }
    }
}

/// Relies on `std::sync::Arc::clone`: the clone is a second handle to the
/// same allocation, so it holds the same tensor.
#[verifier::external_body]
fn arc_clone(a: &Arc<Tensor>) -> (r: Arc<Tensor>)
    ensures
        r@ == a@,
{
    Arc::clone(a)
}

impl Clone for TensorView {
    fn clone(&self) -> (r: Self)
        ensures
            r@ == self@,
            self is Shared ==> r is Shared,
            self is Owned ==> r is Owned,
    {
        match self {
            TensorView::Owned(t) => TensorView::Owned(t.clone()),
            TensorView::Shared(a) => TensorView::Shared(arc_clone(a)),
        }
    }
}

/// Element-wise comparison of two dimension vectors.
fn dims_equal(a: &Vec<usize>, b: &Vec<usize>) -> (r: bool)
    ensures
        r <==> a@ == b@,
{
    if a.len() != b.len() {
        return false;
    }
    let mut i: usize = 0;
    while i < a.len()
        invariant
            i <= a@.len(),
            a@.len() == b@.len(),
            forall|j: int| 0 <= j < i ==> a@[j] == b@[j],
        decreases a@.len() - i,
    {
        if a[i] != b[i] {
            return false;
        }
        i = i + 1;
    }
    proof {
        assert(a@ =~= b@);
    }
    true
}

/// Element-wise comparison of two element vectors.
fn elems_equal(a: &Vec<i32>, b: &Vec<i32>) -> (r: bool)
    ensures
        r <==> a@ == b@,
{
    if a.len() != b.len() {
        return false;
    }
    let mut i: usize = 0;
    while i < a.len()
        invariant
            i <= a@.len(),
            a@.len() == b@.len(),
            forall|j: int| 0 <= j < i ==> a@[j] == b@[j],
        decreases a@.len() - i,
    {
        if a[i] != b[i] {
            return false;
        }
        i = i + 1;
    }
    proof {
        assert(a@ =~= b@);
    }
    true
}

impl PartialEq for TensorView {
    /// Two views are equal when the tensors they wrap are, shared or
    /// not.
    fn eq(&self, other: &TensorView) -> (r: bool) {
        let ta = self.as_tensor();
        let tb = other.as_tensor();
        dims_equal(&ta.shape, &tb.shape) && elems_equal(&ta.data, &tb.data)
    }
}

impl vstd::std_specs::cmp::PartialEqSpecImpl for TensorView {
    open spec fn obeys_eq_spec() -> bool {
        true
    }

    open spec fn eq_spec(&self, other: &TensorView) -> bool {
        self@ == other@
    }
}

impl From<Tensor> for TensorView {
    /// An owned tensor becomes an owned view.
    fn from(m: Tensor) -> (r: TensorView) {
        TensorView::Owned(m)
    }
}

impl vstd::std_specs::convert::FromSpecImpl<Tensor> for TensorView {
    open spec fn obeys_from_spec() -> bool {
        true
    }

    open spec fn from_spec(m: Tensor) -> TensorView {
        TensorView::Owned(m)
    }
}

impl From<Arc<Tensor>> for TensorView {
    /// A shared tensor becomes a shared view.
    fn from(m: Arc<Tensor>) -> (r: TensorView) {
        TensorView::Shared(m)
    }
}

impl vstd::std_specs::convert::FromSpecImpl<Arc<Tensor>> for TensorView {
    open spec fn obeys_from_spec() -> bool {
        true
    }

    open spec fn from_spec(m: Arc<Tensor>) -> TensorView {
        TensorView::Shared(m)
    }
}

impl TensorView {
    /// Creates a shared view from any view.
    pub fn into_shared(self) -> (r: TensorView)
        ensures
            r@ == self@,
            r is Shared,
    {
        match self {
            TensorView::Owned(m) => TensorView::Shared(Arc::new(m)),
            TensorView::Shared(_) => self,
        }
    }

    /// Extracts an owned tensor, cloning the element data when shared.
    pub fn into_tensor(self) -> (t: Tensor)
        ensures
            t@ == self@,
    {
        match self {
            TensorView::Owned(m) => m,
            TensorView::Shared(m) => (*m).clone(),
        }
    }

    /// Borrows the tensor wrapped inside the view.
    pub fn as_tensor(&self) -> (t: &Tensor)
        ensures
            t@ == self@,
    {
        match self {
            TensorView::Owned(m) => m,
            TensorView::Shared(m) => &**m,
        }
    }

    /// Returns a shared copy of the view, turning `self` into
    /// `TensorView::Shared` first if necessary.
    pub fn share(&mut self) -> (r: TensorView)
        ensures
            final(self)@ == old(self)@,
            *final(self) is Shared,
            r@ == old(self)@,
            r is Shared,
    {
        let owned: bool = matches!(self, TensorView::Owned(_));
        if owned {
            let mut dummy = TensorView::Owned(Tensor { shape: Vec::new(), data: Vec::new() });
            core::mem::swap(self, &mut dummy);
            match dummy {
                TensorView::Owned(m) => {
                    *self = TensorView::Shared(Arc::new(m));
                },
                TensorView::Shared(s) => {
                    *self = TensorView::Shared(s);
                },
            }
        }
        self.clone()
    }
}

} // verus!
