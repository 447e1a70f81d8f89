//! A bounded replay buffer of training transitions: once full, each new transition evicts the
//! oldest one.

use std::collections::VecDeque;

use rand::Rng;

use vstd::prelude::*;

verus! {

/// Whether `indices` are an outcome of drawing each of them uniformly at random, independently,
/// from `0..bound`. Which outcome comes is chance; this names the draw they came from.
pub uninterp spec fn drawn_from(indices: Seq<usize>, bound: nat) -> bool;

/// `count` indices drawn uniformly at random from `0..bound`.
///
/// Trusted: draws from `rand::thread_rng()` through `Rng::sample_iter` with
/// `rand::distributions::Uniform::from(0..bound)` and keeps the first `count` draws. The
/// contract claims only what holds of every outcome: there are `count` of them, each lies
/// below `bound`, and they are a draw from `0..bound`. `Uniform::from` panics on an empty
/// range, hence `bound > 0`.
#[verifier::external_body]
fn sample_indices(bound: usize, count: usize) -> (indices: Vec<usize>)
    requires
        bound > 0,
    ensures
        indices.len() == count,
        forall|k: int| 0 <= k < count ==> #[trigger] indices@[k] < bound,
        drawn_from(indices@, bound as nat),
{
    rand::thread_rng().sample_iter(rand::distributions::Uniform::from(0..bound)).take(count).collect()
}

/// The transitions kept, oldest first, and how many of them count as stored.
pub struct ReplayBuffer<T> {
    buffer: VecDeque<T>,
    capacity: usize,
    size: usize,
}

/// What the buffer holds after a push onto `items`, with `size` of them counted, when it
/// keeps at most `capacity`.
pub open spec fn pushed<T>(items: Seq<T>, size: nat, capacity: nat, t: T) -> (Seq<T>, nat) {
    if size == capacity {
        (if items.len() > 0 {
            items.drop_first()
        } else {
            items
        }.push(t), size)
    } else {
        (items.push(t), size + 1)
    }
}

impl<T> ReplayBuffer<T> {
    pub closed spec fn items(&self) -> Seq<T> {
        self.buffer@
    }

    pub closed spec fn spec_size(&self) -> nat {
        self.size as nat
    }

    pub closed spec fn spec_capacity(&self) -> nat {
        self.capacity as nat
    }

    /// The buffer counts every item it holds, and never more than its capacity; a buffer of
    /// capacity 0 holds at most the last item, counting none.
    pub open spec fn wf(&self) -> bool {
        &&& self.spec_size() <= self.spec_capacity()
        &&& self.spec_capacity() > 0 ==> self.spec_size() == self.items().len()
        &&& self.spec_capacity() == 0 ==> self.items().len() <= 1
    }

    /// Whether `t` is one of the transitions counted as stored.
    pub open spec fn is_stored(&self, t: T) -> bool {
        exists|i: int| 0 <= i < self.spec_size() && t == #[trigger] self.items()[i]
    }

    pub fn new(capacity: usize) -> (b: Self)
        ensures
            b.wf(),
            b.items() == Seq::<T>::empty(),
            b.spec_size() == 0,
            b.spec_capacity() == capacity,
    {
        ReplayBuffer { buffer: VecDeque::with_capacity(capacity), capacity, size: 0 }
    }

    pub fn len(&self) -> (n: usize)
        ensures
            n == self.spec_size(),
    {
        self.size
    }

    /// Adds a transition; when the buffer is full the oldest transition is evicted.
    pub fn push(&mut self, transition: T)
        requires
            old(self).wf(),
        ensures
            final(self).wf(),
            final(self).spec_capacity() == old(self).spec_capacity(),
            (final(self).items(), final(self).spec_size()) == pushed(
                old(self).items(),
                old(self).spec_size(),
                old(self).spec_capacity(),
                transition,
            ),
    {
        if self.size == self.capacity {
            let _ = self.buffer.pop_front();
        } else {
            self.size += 1;
        }
        self.buffer.push_back(transition);
    }

    /// The stored transitions at `indices`, in the order of the indices.
    pub fn batch_from_indices(&self, indices: &Vec<usize>) -> (b: Vec<&T>)
        requires
            self.wf(),
            forall|k: int| 0 <= k < indices.len() ==> #[trigger] indices@[k] < self.spec_size(),
        ensures
            b.len() == indices.len(),
            forall|k: int|
                0 <= k < indices.len() ==> *#[trigger] b@[k] == self.items()[indices@[k] as int],
    {
        let mut batch: Vec<&T> = Vec::with_capacity(indices.len());
        let mut k: usize = 0;
        while k < indices.len()
            invariant
                self.wf(),
                forall|j: int| 0 <= j < indices.len() ==> #[trigger] indices@[j] < self.spec_size(),
                k <= indices.len(),
                batch.len() == k,
                forall|j: int| 0 <= j < k ==> *#[trigger] batch@[j] == self.items()[indices@[j] as int],
            decreases indices.len() - k,
        {
            let i = indices[k];
            assert(self.size > 0 && self.capacity > 0);
            batch.push(&self.buffer[i]);
            k += 1;
        }
        batch
    }

    /// A batch of `batch_size` transitions drawn at random from the stored ones, uniformly and
    /// with replacement, or `None` when fewer than `batch_size` are stored.
    pub fn random_batch(&self, batch_size: usize) -> (batch: Option<Vec<&T>>)
        requires
            self.wf(),
            self.spec_size() > 0 || batch_size > 0,
        ensures
            batch is None <==> self.spec_size() < batch_size,
            batch matches Some(b) ==> b.len() == batch_size && forall|k: int|
                0 <= k < batch_size ==> self.is_stored(*#[trigger] b@[k]),
            batch matches Some(b) ==> exists|idx: Seq<usize>|
                #[trigger] drawn_from(idx, self.spec_size()) && idx.len() == batch_size && (forall|
                    k: int,
                | 0 <= k < batch_size ==> #[trigger] idx[k] < self.spec_size()) && forall|k: int|
                    0 <= k < batch_size ==> *#[trigger] b@[k] == self.items()[idx[k] as int],
    {
        if self.size < batch_size {
            return None;
        }
        let indices = sample_indices(self.size, batch_size);
        let batch = self.batch_from_indices(&indices);
        assert forall|k: int| 0 <= k < batch_size implies self.is_stored(*#[trigger] batch@[k]) by {
            let i = indices@[k] as int;
            assert(0 <= i < self.spec_size());
            assert(*batch@[k] == self.items()[i]);
        }
        assert(drawn_from(indices@, self.spec_size()));
        Some(batch)
    }
}

/// The result of pushing `pushes` in order onto an empty buffer of `capacity`.
pub open spec fn pushed_all<T>(pushes: Seq<T>, capacity: nat) -> (Seq<T>, nat)
    decreases pushes.len(),
{
    if pushes.len() == 0 {
        (Seq::empty(), 0)
    } else {
        let (items, size) = pushed_all(pushes.drop_last(), capacity);
        pushed(items, size, capacity, pushes.last())
    }
}

/// A buffer of positive capacity holds the latest `capacity` transitions pushed into it (all of
/// them while there are fewer), oldest first.
pub proof fn lemma_buffer_keeps_latest<T>(pushes: Seq<T>, capacity: nat)
    requires
        capacity > 0,
    ensures
        pushed_all(pushes, capacity).0 == pushes.subrange(
            if pushes.len() > capacity {
                pushes.len() - capacity
            } else {
                0
            },
            pushes.len() as int,
        ),
        pushed_all(pushes, capacity).1 == if pushes.len() > capacity {
            capacity
        } else {
            pushes.len()
        },
    decreases pushes.len(),
{
    if pushes.len() > 0 {
        let prev = pushes.drop_last();
        lemma_buffer_keeps_latest(prev, capacity);
        let n = pushes.len() as int;
        if prev.len() >= capacity {
            assert(prev.subrange(prev.len() - capacity, prev.len() as int).drop_first().push(
                pushes.last(),
            ) =~= pushes.subrange(n - capacity, n));
        } else {
            assert(prev.subrange(0, prev.len() as int).push(pushes.last()) =~= pushes.subrange(
                0,
                n,
            ));
        }
    }
}

} // verus!
