//! Decoded public-state receipts are acknowledged in bounded batches.
use vstd::prelude::*;

verus! {

/// Eight maximum-width receipts fit the smallest admitted control frame.
pub const DECODED_RECEIPTS_PER_CONTROL: usize = 8;

/// Receipts queued for the next decoded-state acknowledgement.
pub struct ReceiptBatcher<T> {
    pending: Vec<T>,
}

impl<T> ReceiptBatcher<T> {
    /// The receipts waiting to be acknowledged, oldest first.
    pub closed spec fn queued(&self) -> Seq<T> {
        self.pending@
    }

    /// A queue never holds a complete batch between calls.
    pub closed spec fn wf(&self) -> bool {
        self.pending@.len() < DECODED_RECEIPTS_PER_CONTROL
    }

    /// An empty queue: a new session starts with no pending proofs.
    pub fn new() -> (result: Self)
        ensures
            result.wf(),
            result.queued() == Seq::<T>::empty(),
    {
        ReceiptBatcher { pending: Vec::new() }
    }

    pub fn len(&self) -> (result: usize)
        ensures
            result == self.queued().len(),
    {
        self.pending.len()
    }

    /// Queues one receipt; a full batch of eight is handed back at once.
    pub fn queue(&mut self, receipt: T) -> (batch: Option<Vec<T>>)
        requires
            old(self).wf(),
        ensures
            final(self).wf(),
            final(self).queued() == queue_spec(old(self).queued(), receipt).1,
            match queue_spec(old(self).queued(), receipt).0 {
                Some(b) => batch matches Some(v) && v@ == b,
                None => batch is None,
            },
    {
        self.pending.push(receipt);
        if self.pending.len() == DECODED_RECEIPTS_PER_CONTROL {
            self.take()
        } else {
            None
        }
    }

    /// Hands back every queued receipt, or nothing when none is queued.
    pub fn take(&mut self) -> (batch: Option<Vec<T>>)
        ensures
            final(self).wf(),
            final(self).queued() == Seq::<T>::empty(),
            old(self).queued().len() == 0 ==> batch is None,
            old(self).queued().len() > 0 ==> (batch matches Some(b) && b@ == old(self).queued()),
    {
        if self.pending.len() == 0 {
            return None;
        }
        let mut batch = Vec::new();
        std::mem::swap(&mut batch, &mut self.pending);
        Some(batch)
    }
}

/// Queueing `r` behind `q`: a completed batch, if any, and what stays queued.
pub open spec fn queue_spec<T>(q: Seq<T>, r: T) -> (Option<Seq<T>>, Seq<T>) {
    let t = q.push(r);
    if t.len() == DECODED_RECEIPTS_PER_CONTROL {
        (Some(t), Seq::empty())
    } else {
        (None, t)
    }
}

/// Queueing each of `rs` in turn behind `q`: the batches handed back, in
/// order, and what stays queued.
pub open spec fn feed<T>(q: Seq<T>, rs: Seq<T>) -> (Seq<Seq<T>>, Seq<T>)
    decreases rs.len(),
{
    if rs.len() == 0 {
        (Seq::empty(), q)
    } else {
        let (batches, rest) = feed(q, rs.drop_last());
        match queue_spec(rest, rs.last()).0 {
            Some(batch) => (batches.push(batch), queue_spec(rest, rs.last()).1),
            None => (batches, queue_spec(rest, rs.last()).1),
        }
    }
}

/// The batches joined in order.
pub open spec fn joined<T>(bs: Seq<Seq<T>>) -> Seq<T>
    decreases bs.len(),
{
    if bs.len() == 0 {
        Seq::empty()
    } else {
        joined(bs.drop_last()) + bs.last()
    }
}

/// Every receipt is acknowledged exactly once and in order: the batches
/// handed back, followed by what stays queued for the final flush, are the
/// queued receipts followed by the new ones; every batch is full.
pub proof fn law_batches_are_exact<T>(q: Seq<T>, rs: Seq<T>)
    requires
        q.len() < DECODED_RECEIPTS_PER_CONTROL,
    ensures
        joined(feed(q, rs).0) + feed(q, rs).1 == q + rs,
        feed(q, rs).1.len() < DECODED_RECEIPTS_PER_CONTROL,
        forall|i: int|
            0 <= i < feed(q, rs).0.len() ==> (#[trigger] feed(q, rs).0[i]).len()
                == DECODED_RECEIPTS_PER_CONTROL,
    decreases rs.len(),
{
    if rs.len() > 0 {
        law_batches_are_exact(q, rs.drop_last());
        let (batches, rest) = feed(q, rs.drop_last());
        let r = rs.last();
        assert(q + rs =~= (q + rs.drop_last()).push(r));
        if rest.len() + 1 == DECODED_RECEIPTS_PER_CONTROL {
            let nb = batches.push(rest.push(r));
            assert(nb.drop_last() =~= batches);
            assert(joined(nb) == joined(batches) + rest.push(r));
            assert(joined(nb) + Seq::<T>::empty() =~= joined(batches) + rest + seq![r]);
            assert forall|i: int| 0 <= i < nb.len() implies (#[trigger] nb[i]).len()
                == DECODED_RECEIPTS_PER_CONTROL by {
                if i < batches.len() {
                    assert(nb[i] == batches[i]);
                }
            }
        } else {
            assert(joined(batches) + rest.push(r) =~= joined(batches) + rest + seq![r]);
        }
    }
}

/// The receipts of each batch.
pub open spec fn batch_views<T>(bs: Seq<Vec<T>>) -> Seq<Seq<T>> {
    Seq::new(bs.len(), |k: int| bs[k]@)
}

proof fn lemma_joined_push<T>(bs: Seq<Seq<T>>, b: Seq<T>)
    ensures
        joined(bs.push(b)) == joined(bs) + b,
{
    assert(bs.push(b).drop_last() =~= bs);
}

impl<T: Copy> ReceiptBatcher<T> {
    /// One receive pass: every receipt decoded in the pass is queued in
    /// order, each completed batch of eight is handed back at once, and the
    /// final partial batch is flushed at the end of the same pass, so that
    /// nothing waits for a later frame. The batches, joined in order, are the
    /// receipts queued before followed by the pass's receipts; every batch
    /// holds one to eight receipts, and all but the last hold eight.
    pub fn receive_pass(&mut self, decoded: &Vec<T>) -> (batches: Vec<Vec<T>>)
        requires
            old(self).wf(),
        ensures
            final(self).wf(),
            final(self).queued() == Seq::<T>::empty(),
            joined(batch_views(batches@)) == old(self).queued() + decoded@,
            forall|k: int|
                0 <= k < batches@.len() ==> 0 < (#[trigger] batches@[k])@.len()
                    <= DECODED_RECEIPTS_PER_CONTROL,
            forall|k: int|
                0 <= k < batches@.len() - 1 ==> (#[trigger] batches@[k])@.len()
                    == DECODED_RECEIPTS_PER_CONTROL,
    {
        let ghost start = self.queued();
        let mut batches: Vec<Vec<T>> = Vec::new();
        let n = decoded.len();
        for i in 0..n
            invariant
                n == decoded@.len(),
                self.wf(),
                joined(batch_views(batches@)) + self.queued() == start + decoded@.take(i as int),
                forall|k: int|
                    0 <= k < batches@.len() ==> (#[trigger] batches@[k])@.len()
                        == DECODED_RECEIPTS_PER_CONTROL,
        {
            let ghost before = batches@;
            let ghost q = self.queued();
            let r = decoded[i];
            let ghost jb = joined(batch_views(before));
            proof {
                assert(decoded@.take(i as int + 1) =~= decoded@.take(i as int).push(r));
                assert(batch_views(batches@) == batch_views(before));
                assert((jb + q).push(r) =~= jb + q.push(r));
                assert((start + decoded@.take(i as int)).push(r) =~= start + decoded@.take(
                    i as int + 1,
                ));
            }
            if let Some(b) = self.queue(r) {
                batches.push(b);
                proof {
                    assert(batch_views(batches@) =~= batch_views(before).push(b@));
                    lemma_joined_push(batch_views(before), b@);
                    assert(b@ == q.push(r));
                    assert(joined(batch_views(batches@)) + self.queued() =~= start
                        + decoded@.take(i as int + 1));
                    assert forall|k: int| 0 <= k < batches@.len() implies (
                    #[trigger] batches@[k])@.len() == DECODED_RECEIPTS_PER_CONTROL by {
                        if k < before.len() {
                            assert(batches@[k] == before[k]);
                        }
                    }
                }
            } else {
                proof {
                    assert(self.queued() == q.push(r));
                    assert(joined(batch_views(batches@)) + self.queued() =~= start
                        + decoded@.take(i as int + 1));
                }
            }
        }
        proof {
            assert(decoded@.take(n as int) =~= decoded@);
        }
        let ghost before = batches@;
        if let Some(b) = self.take() {
            batches.push(b);
            proof {
                assert(batch_views(batches@) =~= batch_views(before).push(b@));
                lemma_joined_push(batch_views(before), b@);
                assert(joined(batch_views(batches@)) =~= start + decoded@);
                assert forall|k: int| 0 <= k < batches@.len() implies 0 < (
                #[trigger] batches@[k])@.len() <= DECODED_RECEIPTS_PER_CONTROL by {
                    if k < before.len() {
                        assert(batches@[k] == before[k]);
                    }
                }
                assert forall|k: int| 0 <= k < batches@.len() - 1 implies (
                #[trigger] batches@[k])@.len() == DECODED_RECEIPTS_PER_CONTROL by {
                    assert(batches@[k] == before[k]);
                }
            }
        } else {
            proof {
                assert(joined(batch_views(batches@)) =~= start + decoded@);
            }
        }
        batches
    }
}

} // verus!
