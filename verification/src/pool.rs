//! The bounded connection-pool model: a fixed-capacity set of connection
//! handles, each owned by at most one caller at a time.
//!
//! `acquire` succeeds exactly when a connection is available, so a caller
//! under overload sees `Exhausted` at once instead of queuing without
//! bound; `release` returns a lent connection. Both transitions are pinned
//! to deterministic spec functions, and the conservation and exclusivity
//! laws are proved below. The blocking, timeouts and the network itself
//! live with the caller that drives this model.

use vstd::prelude::*;

verus! {

broadcast use vstd::set::group_set_axioms;

/// Why `acquire` can fail: every connection is currently lent out.
#[derive(Clone, Copy, PartialEq, Eq, Structural, Debug)]
pub enum PoolError {
    Exhausted,
}

/// Mathematical model of a pool: the handles still available, in stack
/// order, and the set of handles currently lent out.
pub struct PoolModel {
    pub max_size: int,
    pub available: Seq<u64>,
    pub lent: Set<u64>,
}

impl PoolModel {
    /// A pool is well formed when no handle is duplicated or both lent
    /// and available, and every handle is accounted for: at any instant,
    /// available plus lent is exactly the fixed capacity.
    pub open spec fn wf(self) -> bool {
        &&& self.available.no_duplicates()
        &&& self.lent.finite()
        &&& forall|i: int|
            0 <= i < self.available.len() ==> !self.lent.contains(#[trigger] self.available[i])
        &&& self.available.len() + self.lent.len() == self.max_size
    }
}

/// The acquire transition: hand out the most recently returned available
/// handle, or report exhaustion and leave the pool unchanged.
pub open spec fn spec_acquire(p: PoolModel) -> (PoolModel, Option<u64>) {
    if p.available.len() == 0 {
        (p, None)
    } else {
        let id = p.available.last();
        (
            PoolModel {
                max_size: p.max_size,
                available: p.available.drop_last(),
                lent: p.lent.insert(id),
            },
            Some(id),
        )
    }
}

/// The release transition: the handle leaves the lent set and becomes
/// available again.
pub open spec fn spec_release(p: PoolModel, id: u64) -> PoolModel {
    PoolModel {
        max_size: p.max_size,
        available: p.available.push(id),
        lent: p.lent.remove(id),
    }
}

/// A bounded pool of connection handles. The available handles are held
/// directly; the lent ones are tracked in ghost state, since a caller
/// proves it returns exactly what it acquired.
pub struct Pool {
    pub max_size: usize,
    pub available: Vec<u64>,
    pub lent: Ghost<Set<u64>>,
}

impl View for Pool {
    type V = PoolModel;

    open spec fn view(&self) -> PoolModel {
        PoolModel {
            max_size: self.max_size as int,
            available: self.available@,
            lent: self.lent@,
        }
    }
}

impl Pool {
    /// Build a pool of `max_size` distinct connection handles, all
    /// available: connections are established eagerly at construction.
    pub fn new(max_size: usize) -> (p: Pool)
        ensures
            p@.wf(),
            p@.max_size == max_size,
            p@.available.len() == max_size,
            p@.lent == Set::<u64>::empty(),
    {
        let mut available: Vec<u64> = Vec::new();
        let mut i: usize = 0;
        while i < max_size
            invariant
                i <= max_size,
                available@.len() == i,
                forall|k: int| 0 <= k < i ==> available@[k] == k as u64,
            decreases max_size - i,
        {
            available.push(i as u64);
            i = i + 1;
        }
        assert(available@.no_duplicates());
        let p = Pool { max_size, available, lent: Ghost(Set::empty()) };
        assert(p@.lent.len() == 0);
        p
    }

    /// Lend out a connection: succeeds exactly when one is available, and
    /// the handle it yields was not lent to anyone else. On exhaustion the
    /// pool is unchanged and the caller sees `Exhausted` at once.
    pub fn acquire(&mut self) -> (r: Result<u64, PoolError>)
        requires
            old(self)@.wf(),
        ensures
            final(self)@.wf(),
            final(self)@.max_size == old(self)@.max_size,
            r is Ok <==> old(self)@.available.len() > 0,
            r is Ok ==> (final(self)@, Some(r->Ok_0)) == spec_acquire(old(self)@),
            r is Ok ==> !old(self)@.lent.contains(r->Ok_0) && final(self)@.lent.contains(r->Ok_0),
            r is Err ==> final(self)@ == old(self)@ && r->Err_0 == PoolError::Exhausted,
    {
        match self.available.pop() {
            Some(id) => {
                proof {
                    assert(old(self)@.available.last() == id);
                }
                self.lent = Ghost(self.lent@.insert(id));
                proof {
                    lemma_acquire_preserves_wf(old(self)@);
                    assert(self@ == spec_acquire(old(self)@).0);
                }
                Ok(id)
            },
            None => Err(PoolError::Exhausted),
        }
    }

    /// Take back a lent connection. The caller owes exactly one `release`
    /// per successful `acquire`, on every exit path.
    pub fn release(&mut self, id: u64)
        requires
            old(self)@.wf(),
            old(self)@.lent.contains(id),
        ensures
            final(self)@ == spec_release(old(self)@, id),
            final(self)@.wf(),
            final(self)@.max_size == old(self)@.max_size,
            final(self)@.available.len() == old(self)@.available.len() + 1,
    {
        self.available.push(id);
        self.lent = Ghost(self.lent@.remove(id));
        proof {
            lemma_release_preserves_wf(old(self)@, id);
            assert(self@ == spec_release(old(self)@, id));
        }
    }

    /// Discard a lent connection that errored during use — it is never
    /// returned to the pool in a poisoned state — and recreate its slot
    /// with a fresh handle, keeping the capacity fixed.
    pub fn replace(&mut self, id: u64, fresh: u64)
        requires
            old(self)@.wf(),
            old(self)@.lent.contains(id),
            !old(self)@.lent.contains(fresh),
            forall|i: int|
                0 <= i < old(self)@.available.len() ==> (#[trigger] old(self)@.available[i])
                    != fresh,
        ensures
            final(self)@ == spec_replace(old(self)@, id, fresh),
            final(self)@.wf(),
            final(self)@.max_size == old(self)@.max_size,
            !final(self)@.lent.contains(id),
    {
        self.available.push(fresh);
        self.lent = Ghost(self.lent@.remove(id));
        proof {
            let q = spec_replace(old(self)@, id, fresh);
            assert(q.lent.len() == old(self)@.lent.len() - 1);
            assert(q.available.no_duplicates());
            assert forall|i: int| 0 <= i < q.available.len() implies !q.lent.contains(
                #[trigger] q.available[i],
            ) by {
                if i < old(self)@.available.len() {
                    assert(!old(self)@.lent.contains(q.available[i]));
                }
            }
            assert(self@ == q);
        }
    }
}

/// The replace transition: a connection that failed during use leaves the
/// lent set for good and a fresh handle takes its slot, so capacity never
/// shrinks.
pub open spec fn spec_replace(p: PoolModel, id: u64, fresh: u64) -> PoolModel {
    PoolModel {
        max_size: p.max_size,
        available: p.available.push(fresh),
        lent: p.lent.remove(id),
    }
}

/// Conservation law: in a well-formed pool the lent and available handles
/// always partition the fixed capacity.
pub proof fn lemma_pool_conservation(p: PoolModel)
    requires
        p.wf(),
    ensures
        p.available.len() + p.lent.len() == p.max_size,
{
}

/// Acquiring preserves well-formedness and conservation.
pub proof fn lemma_acquire_preserves_wf(p: PoolModel)
    requires
        p.wf(),
    ensures
        spec_acquire(p).0.wf(),
        spec_acquire(p).0.max_size == p.max_size,
        spec_acquire(p).1 is Some ==> !p.lent.contains(spec_acquire(p).1.unwrap()),
{
    if p.available.len() > 0 {
        let id = p.available.last();
        let q = spec_acquire(p).0;
        assert(!p.lent.contains(id));
        assert(q.lent.len() == p.lent.len() + 1);
        assert forall|i: int| 0 <= i < q.available.len() implies !q.lent.contains(
            #[trigger] q.available[i],
        ) by {
            assert(q.available[i] == p.available[i]);
            assert(p.available[i] != id);
        }
    }
}

/// Releasing a lent handle preserves well-formedness and conservation.
pub proof fn lemma_release_preserves_wf(p: PoolModel, id: u64)
    requires
        p.wf(),
        p.lent.contains(id),
    ensures
        spec_release(p, id).wf(),
        spec_release(p, id).max_size == p.max_size,
{
    let q = spec_release(p, id);
    assert(q.lent.len() == p.lent.len() - 1);
    assert forall|i: int| 0 <= i < p.available.len() implies p.available[i] != id by {
        assert(!p.lent.contains(p.available[i]));
    }
    assert(q.available.no_duplicates());
    assert forall|i: int| 0 <= i < q.available.len() implies !q.lent.contains(
        #[trigger] q.available[i],
    ) by {
        if i < p.available.len() {
            assert(!p.lent.contains(q.available[i]));
        }
    }
}

/// Exclusivity law: two acquisitions in a row never yield the same handle,
/// so no two overlapping callers ever hold one connection at once.
pub proof fn lemma_acquire_exclusive(p: PoolModel)
    requires
        p.wf(),
    ensures
        ({
            let (p1, a) = spec_acquire(p);
            let (p2, b) = spec_acquire(p1);
            a is Some && b is Some ==> a.unwrap() != b.unwrap()
        }),
{
    let (p1, a) = spec_acquire(p);
    if a is Some {
        lemma_acquire_preserves_wf(p);
        let (p2, b) = spec_acquire(p1);
        if b is Some {
            assert(p1.lent.contains(a.unwrap()));
            assert(!p1.lent.contains(p1.available.last()));
        }
    }
}

} // verus!
