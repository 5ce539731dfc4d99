//! Grouping the ids read back from a backup into deletion batches.

use vstd::prelude::*;

verus! {

broadcast use vstd::seq::Seq::group_seq_flatten;

/// The largest number of ids the API deletes in one call.
pub const DELETION_BATCH_SIZE: usize = 32;

/// `ids` cut, in order, into batches of `DELETION_BATCH_SIZE`, the last one
/// holding what is left; no ids give no batch.
pub open spec fn batches_of<T>(ids: Seq<T>) -> Seq<Seq<T>>
    decreases ids.len(),
{
    if ids.len() == 0 {
        Seq::empty()
    } else if ids.len() <= DELETION_BATCH_SIZE {
        seq![ids]
    } else {
        seq![ids.take(DELETION_BATCH_SIZE as int)] + batches_of(ids.skip(DELETION_BATCH_SIZE as int))
    }
}

/// Batching ids cut at a batch boundary is batching each part.
proof fn lemma_batches_split<T>(a: Seq<T>, b: Seq<T>)
    requires
        a.len() % (DELETION_BATCH_SIZE as nat) == 0,
    ensures
        batches_of(a + b) == batches_of(a) + batches_of(b),
    decreases a.len(),
{
    let n = DELETION_BATCH_SIZE as int;
    if a.len() == 0 {
        assert(a + b =~= b);
        assert(batches_of(a) + batches_of(b) =~= batches_of(b));
    } else {
        assert(a.len() >= n);
        if a.len() == n && b.len() == 0 {
            assert(a + b =~= a);
            assert(batches_of(a) + batches_of(b) =~= batches_of(a));
        } else {
            let ab = a + b;
            assert(ab.take(n) =~= a.take(n));
            assert(ab.skip(n) =~= a.skip(n) + b);
            lemma_batches_split(a.skip(n), b);
            if a.len() == n {
                assert(a.take(n) =~= a);
                assert(a.skip(n) + b =~= b);
                assert(batches_of(a) == seq![a]);
                assert(batches_of(ab) =~= batches_of(a) + batches_of(b));
            } else {
                assert(batches_of(a) == seq![a.take(n)] + batches_of(a.skip(n)));
                assert(batches_of(ab) =~= batches_of(a) + batches_of(b));
            }
        }
    }
}

/// Batching hands out every id once, in order, in batches of one to
/// `DELETION_BATCH_SIZE` ids, and no batch at all for no ids.
pub proof fn lemma_batches_cover_ids<T>(ids: Seq<T>)
    ensures
        batches_of(ids).flatten() == ids,
        forall|i: int|
            0 <= i < batches_of(ids).len() ==> 1 <= #[trigger] batches_of(ids)[i].len()
                <= DELETION_BATCH_SIZE,
        ids.len() == 0 <==> batches_of(ids).len() == 0,
    decreases ids.len(),
{
    let n = DELETION_BATCH_SIZE as int;
    if ids.len() == 0 {
    } else if ids.len() <= n {
        assert(batches_of(ids) == seq![ids]);
        assert(seq![ids].flatten() == ids);
    } else {
        let rest = ids.skip(n);
        lemma_batches_cover_ids(rest);
        let bs = batches_of(ids);
        assert(bs == seq![ids.take(n)] + batches_of(rest));
        vstd::seq_lib::lemma_flatten_concat(seq![ids.take(n)], batches_of(rest));
        assert(seq![ids.take(n)].flatten() == ids.take(n));
        assert(ids.take(n) + rest =~= ids);
        assert forall|i: int| 0 <= i < bs.len() implies 1 <= #[trigger] bs[i].len()
            <= DELETION_BATCH_SIZE by {
            if i > 0 {
                assert(bs[i] == batches_of(rest)[i - 1]);
            }
        }
    }
}

/// Collects ids one at a time and hands them out in deletion batches.
pub struct IdBatcher<T> {
    batch: Vec<T>,
    full: Ghost<Seq<T>>,
    emitted: Ghost<Seq<Seq<T>>>,
}

impl<T> IdBatcher<T> {
    /// Every id pushed so far, in order.
    pub closed spec fn pushed(&self) -> Seq<T> {
        self.full@ + self.batch@
    }

    /// Every batch handed out so far, in order.
    pub closed spec fn emitted(&self) -> Seq<Seq<T>> {
        self.emitted@
    }

    /// The ids pushed since the last batch was handed out.
    pub closed spec fn pending(&self) -> Seq<T> {
        self.batch@
    }

    pub closed spec fn wf(&self) -> bool {
        &&& self.full@.len() % (DELETION_BATCH_SIZE as nat) == 0
        &&& self.emitted@ == batches_of(self.full@)
        &&& self.batch@.len() < DELETION_BATCH_SIZE
    }

    /// A batcher that has seen no id.
    pub fn new() -> (batcher: IdBatcher<T>)
        ensures
            batcher.wf(),
            batcher.pushed() == Seq::<T>::empty(),
            batcher.emitted() == Seq::<Seq<T>>::empty(),
    {
        let batcher = IdBatcher {
            batch: Vec::with_capacity(DELETION_BATCH_SIZE),
            full: Ghost(Seq::empty()),
            emitted: Ghost(Seq::empty()),
        };
        assert(batcher.full@ + batcher.batch@ =~= Seq::<T>::empty());
        batcher
    }

    /// Adds one id; once `DELETION_BATCH_SIZE` ids have gathered, hands them
    /// out as a batch.
    pub fn push(&mut self, id: T) -> (full_batch: Option<Vec<T>>)
        requires
            old(self).wf(),
        ensures
            final(self).wf(),
            final(self).pushed() == old(self).pushed().push(id),
            match full_batch {
                Some(batch) => {
                    &&& batch@.len() == DELETION_BATCH_SIZE
                    &&& final(self).emitted() == old(self).emitted().push(batch@)
                },
                None => final(self).emitted() == old(self).emitted(),
            },
    {
        let ghost pushed0 = self.full@ + self.batch@;
        self.batch.push(id);
        if self.batch.len() >= DELETION_BATCH_SIZE {
            let mut out: Vec<T> = Vec::with_capacity(DELETION_BATCH_SIZE);
            std::mem::swap(&mut out, &mut self.batch);
            proof {
                vstd::arithmetic::div_mod::lemma_mod_add_multiples_vanish(
                    self.full@.len() as int,
                    DELETION_BATCH_SIZE as int,
                );
                lemma_batches_split(self.full@, out@);
                assert(batches_of(out@) == seq![out@]);
            }
            let ghost full0 = self.full@;
            let ghost emitted0 = self.emitted@;
            self.emitted = Ghost(self.emitted@.push(out@));
            self.full = Ghost(self.full@ + out@);
            assert(batches_of(full0 + out@) == emitted0 + seq![out@]);
            assert(emitted0.push(out@) =~= emitted0 + seq![out@]);
            assert(self.full@ + self.batch@ =~= pushed0.push(id));
            assert(self.full@.len() % (DELETION_BATCH_SIZE as nat) == 0);
            assert(self.emitted@ == batches_of(self.full@));
            assert(self.batch@.len() < DELETION_BATCH_SIZE);
            Some(out)
        } else {
            assert(self.full@ + self.batch@ =~= pushed0.push(id));
            None
        }
    }

    /// Ends the stream of ids: hands out what is left as a last batch, if
    /// anything is.
    pub fn finish(self) -> (last: Option<Vec<T>>)
        requires
            self.wf(),
        ensures
            match last {
                Some(batch) => {
                    &&& 0 < batch@.len() < DELETION_BATCH_SIZE
                    &&& self.emitted().push(batch@) == batches_of(self.pushed())
                },
                None => self.emitted() == batches_of(self.pushed()),
            },
    {
        proof {
            lemma_batches_split(self.full@, self.batch@);
        }
        if self.batch.len() == 0 {
            assert(self.batch@ =~= Seq::<T>::empty());
            assert(self.emitted@ + batches_of(self.batch@) =~= self.emitted@);
            None
        } else {
            assert(batches_of(self.batch@) == seq![self.batch@]);
            Some(self.batch)
        }
    }
}

} // verus!
