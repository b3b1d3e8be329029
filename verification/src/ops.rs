//! The operator layer around the core: operations, their streaming
//! buffers, and the fallback operation for unknown names.
//!
//! An operation is evaluated over tensor views; operators that support
//! streaming evaluation keep intermediary chunks in a buffer of their
//! own choosing between steps.

use vstd::prelude::*;
use std::collections::VecDeque;

verus! {

use crate::tensor::TensorView;
use crate::CoreError;

/// A streaming buffer for an operation.  Every operation chooses its own
/// buffer type; operations that keep no state use [`EmptyBuffer`].
pub trait OpBuffer {

}

/// An empty buffer for operations which don't need one.
#[derive(Debug)]
pub struct EmptyBuffer {}

impl OpBuffer for EmptyBuffer {

}

/// An operation of the runtime's operator layer.
pub trait Op {
    /// The streaming buffer type this operation keeps state in.
    type Buffer: OpBuffer;

    /// Evaluates the operation over the input tensor views.
    fn eval(&self, inputs: Vec<TensorView>) -> Result<Vec<TensorView>, CoreError>;

    /// Returns a new streaming buffer for the operation.
    fn new_buffer(&self) -> Self::Buffer;

    /// Evaluates one step of the operation over chunked inputs, keeping
    /// intermediary state in `buffer`.  Only operators which support
    /// streaming implement it meaningfully.
    fn step(
        &self,
        inputs: Vec<(Option<usize>, Option<TensorView>)>,
        buffer: &mut Self::Buffer,
    ) -> Result<Option<Vec<TensorView>>, CoreError>;
}

/// The fallback for an operation name with no implementation: evaluation
/// always fails, naming the operation.
#[derive(Debug)]
pub struct UnimplementedOp(pub String);

impl Op for UnimplementedOp {
    type Buffer = EmptyBuffer;

    fn eval(&self, inputs: Vec<TensorView>) -> (r: Result<Vec<TensorView>, CoreError>)
        ensures
            r == Err::<Vec<TensorView>, CoreError>(CoreError::Unimplemented { op: self.0 }),
    {
        Err(CoreError::Unimplemented { op: self.0.clone() })
    }

    fn new_buffer(&self) -> (b: EmptyBuffer) {
        EmptyBuffer {  }
    }

    fn step(
        &self,
        inputs: Vec<(Option<usize>, Option<TensorView>)>,
        buffer: &mut EmptyBuffer,
    ) -> (r: Result<Option<Vec<TensorView>>, CoreError>)
        ensures
            r == Err::<Option<Vec<TensorView>>, CoreError>(CoreError::StreamingUnavailable),
    {
        Err(CoreError::StreamingUnavailable)
    }
}

/// A buffer with a variable number of tensor-view queues, one per
/// streaming input.
#[derive(Debug)]
pub struct QueuesBuffer(pub Vec<VecDeque<TensorView>>);

impl OpBuffer for QueuesBuffer {

}

impl QueuesBuffer {
    /// Creates a new buffer with `size` empty queues.
    pub fn new(size: usize) -> (b: QueuesBuffer)
        ensures
            b.0@.len() == size,
            forall|i: int| 0 <= i < size ==> (#[trigger] b.0@[i])@.len() == 0,
    {
        let mut qs: Vec<VecDeque<TensorView>> = Vec::new();
        let mut i: usize = 0;
        while i < size
            invariant
                i <= size,
                qs@.len() == i,
                forall|j: int| 0 <= j < i ==> (#[trigger] qs@[j])@.len() == 0,
            decreases size - i,
        {
            qs.push(VecDeque::new());
            i = i + 1;
        }
        QueuesBuffer(qs)
    }

    /// Appends each offered view to its queue, taking it out of its
    /// input slot; offering more views than there are queues is a
    /// recoverable error that changes nothing.
    pub fn append(&mut self, views: &mut Vec<(Option<usize>, Option<TensorView>)>) -> (r: Result<
        (),
        CoreError,
    >)
        ensures
            match r {
                Ok(()) => old(views)@.len() <= old(self).0@.len() && final(self).0@.len() == old(
                    self,
                ).0@.len() && final(views)@.len() == old(views)@.len() && (forall|i: int|
                    0 <= i < old(views)@.len() ==> (#[trigger] final(views)@[i]).0 == old(
                        views,
                    )@[i].0 && final(views)@[i].1 is None && (match old(views)@[i].1 {
                        Some(v) => final(self).0@[i]@ == old(self).0@[i]@.push(v),
                        None => final(self).0@[i]@ == old(self).0@[i]@,
                    })) && (forall|i: int|
                    old(views)@.len() <= i < old(self).0@.len() ==> #[trigger] final(self).0@[i]
                        == old(self).0@[i]),
                Err(e) => e == CoreError::QueueOverflow && old(views)@.len() > old(self).0@.len()
                    && final(self).0@ == old(self).0@ && final(views)@ == old(views)@,
            },
    {
        if views.len() > self.0.len() {
            return Err(CoreError::QueueOverflow);
        }
        let mut i: usize = 0;
        while i < views.len()
            invariant
                i <= views@.len(),
                views@.len() == old(views)@.len(),
                old(views)@.len() <= old(self).0@.len(),
                self.0@.len() == old(self).0@.len(),
                forall|j: int|
                    0 <= j < i ==> (#[trigger] views@[j]).0 == old(views)@[j].0 && views@[j].1
                        is None && (match old(views)@[j].1 {
                        Some(v) => self.0@[j]@ == old(self).0@[j]@.push(v),
                        None => self.0@[j]@ == old(self).0@[j]@,
                    }),
                forall|j: int| i <= j < views@.len() ==> #[trigger] views@[j] == old(views)@[j],
                forall|j: int| i <= j < self.0@.len() ==> #[trigger] self.0@[j] == old(self).0@[j],
            decreases views@.len() - i,
        {
            let taken = views[i].1.take();
            if let Some(v) = taken {
                self.0[i].push_back(v);
            }
            i = i + 1;
        }
        Ok(())
    }

    /// The queues, for iteration.
    pub fn iter(&self) -> (r: &Vec<VecDeque<TensorView>>)
        ensures
            r == &self.0,
    {
        &self.0
    }
}

} // verus!
