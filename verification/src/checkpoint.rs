//! Checkpoints and the in-memory bookkeeping of a checkpoint set: the
//! linear chain of ids and the write-through cache. Persistence lives with
//! the caller, which records a checkpoint here only after it is safely on
//! disk, so a failed save never mutates this state.

use vstd::prelude::*;

use crate::format::{PackedSnapshot, SnapshotV};
use crate::metadata::{MetadataV, SnapshotMetadata};
use crate::text::str_eq;

verus! {

/// A named snapshot with its metadata and an optional parent link.
#[derive(Debug)]
pub struct Checkpoint {
    pub id: String,
    pub snapshot: PackedSnapshot,
    pub metadata: SnapshotMetadata,
    pub parent_id: Option<String>,
}

/// Mathematical view of a [`Checkpoint`].
#[verifier::ext_equal]
pub ghost struct CheckpointV {
    pub id: Seq<char>,
    pub snapshot: SnapshotV,
    pub metadata: MetadataV,
    pub parent_id: Option<Seq<char>>,
}

impl View for Checkpoint {
    type V = CheckpointV;

    open spec fn view(&self) -> CheckpointV {
        CheckpointV {
            id: self.id@,
            snapshot: self.snapshot@,
            metadata: self.metadata@,
            parent_id: self.parent_id.deep_view(),
        }
    }
}

impl DeepView for Checkpoint {
    type V = CheckpointV;

    open spec fn deep_view(&self) -> CheckpointV {
        self.view()
    }
}

impl Clone for Checkpoint {
    /// A copy with the same view.
    fn clone(&self) -> (r: Self)
        ensures
            r@ == self@,
    {
        let parent_id = match &self.parent_id {
            Some(s) => Some(s.clone()),
            None => None,
        };
        let r = Checkpoint {
            id: self.id.clone(),
            snapshot: self.snapshot.clone(),
            metadata: self.metadata.clone(),
            parent_id: parent_id,
        };
        proof {
            assert(r@ =~= self@);
        }
        r
    }
}

impl Checkpoint {
    /// A checkpoint named `id` for `snapshot`, with fresh metadata under
    /// the same id and no parent.
    pub fn new(id: String, snapshot: PackedSnapshot) -> (r: Self)
        ensures
            r@.id == id@,
            r@.snapshot == snapshot@,
            r@.metadata.id == id@,
            r@.parent_id is None,
    {
        let metadata = SnapshotMetadata::new(id.clone());
        Checkpoint { id: id, snapshot: snapshot, metadata: metadata, parent_id: None }
    }

    /// The same checkpoint with a parent link.
    pub fn with_parent(self, parent_id: String) -> (r: Self)
        ensures
            r@ == (CheckpointV { parent_id: Some(parent_id@), ..self@ }),
    {
        let r = Checkpoint {
            id: self.id,
            snapshot: self.snapshot,
            metadata: self.metadata,
            parent_id: Some(parent_id),
        };
        r
    }

    /// The same checkpoint with other metadata.
    pub fn with_metadata(self, metadata: SnapshotMetadata) -> (r: Self)
        ensures
            r@ == (CheckpointV { metadata: metadata@, ..self@ }),
    {
        let r = Checkpoint {
            id: self.id,
            snapshot: self.snapshot,
            metadata: metadata,
            parent_id: self.parent_id,
        };
        r
    }
}

/// The in-memory state of a checkpoint set: the ordered chain of ids,
/// newest last, and the cache of materialized checkpoints.
pub struct CheckpointLedger {
    chain: Vec<String>,
    cache: Vec<Checkpoint>,
}

impl CheckpointLedger {
    /// The linear history of recorded ids, oldest first.
    pub closed spec fn spec_chain(self) -> Seq<Seq<char>> {
        self.chain.deep_view()
    }

    /// The cached checkpoints, in insertion order.
    pub closed spec fn spec_cache(self) -> Seq<CheckpointV> {
        self.cache.deep_view()
    }

    /// An empty ledger.
    pub fn new() -> (r: Self)
        ensures
            r.spec_chain() =~= Seq::<Seq<char>>::empty(),
            r.spec_cache() =~= Seq::<CheckpointV>::empty(),
    {
        CheckpointLedger { chain: Vec::new(), cache: Vec::new() }
    }

    /// The number of ids in the chain.
    pub fn chain_len(&self) -> (n: usize)
        ensures
            n == self.spec_chain().len(),
    {
        self.chain.len()
    }

    /// The chain of ids, oldest first.
    pub fn chain_ids(&self) -> (r: &Vec<String>)
        ensures
            r.deep_view() == self.spec_chain(),
    {
        &self.chain
    }

    /// The newest recorded id, if any.
    pub fn latest(&self) -> (r: Option<&String>)
        ensures
            r matches Some(s) ==> self.spec_chain().len() > 0 && s@ == self.spec_chain().last(),
            r is None <==> self.spec_chain().len() == 0,
    {
        let n = self.chain.len();
        if n == 0 {
            None
        } else {
            let s = &self.chain[n - 1];
            proof {
                assert(self.spec_chain()[n - 1] == self.chain@[n - 1]@);
            }
            Some(s)
        }
    }

    /// Records a persisted checkpoint: its id joins the tail of the chain
    /// and the checkpoint itself joins the cache.
    pub fn record(&mut self, cp: Checkpoint)
        ensures
            final(self).spec_chain() == old(self).spec_chain().push(cp@.id),
            final(self).spec_cache() == old(self).spec_cache().push(cp@),
    {
        let id = cp.id.clone();
        self.chain.push(id);
        self.cache.push(cp);
        proof {
            assert(self.spec_chain() =~= old(self).spec_chain().push(cp@.id));
            assert(self.spec_cache() =~= old(self).spec_cache().push(cp@));
        }
    }

    /// Inserts a checkpoint loaded from the store into the cache.
    pub fn insert_cached(&mut self, cp: Checkpoint)
        ensures
            final(self).spec_chain() == old(self).spec_chain(),
            final(self).spec_cache() == old(self).spec_cache().push(cp@),
    {
        self.cache.push(cp);
        proof {
            assert(self.spec_cache() =~= old(self).spec_cache().push(cp@));
        }
    }

    /// The cached checkpoint with the given id, if one is cached.
    pub fn find_cached(&self, id: &str) -> (r: Option<&Checkpoint>)
        ensures
            r matches Some(c) ==> c@.id == id@ && self.spec_cache().contains(c@),
            r is None ==> forall|i: int|
                0 <= i < self.spec_cache().len() ==> (#[trigger] self.spec_cache()[i]).id != id@,
    {
        let n = self.cache.len();
        let mut i: usize = 0;
        while i < n
            invariant
                i <= n,
                n == self.cache@.len(),
                forall|j: int|
                    0 <= j < i ==> (#[trigger] self.spec_cache()[j]).id != id@,
            decreases n - i,
        {
            if str_eq(self.cache[i].id.as_str(), id) {
                proof {
                    assert(self.spec_cache()[i as int].id == id@);
                    assert(self.spec_cache().contains(self.spec_cache()[i as int]));
                }
                return Some(&self.cache[i]);
            }
            proof {
                assert(self.spec_cache()[i as int].id != id@);
            }
            i += 1;
        }
        None
    }

    /// Forgets an id everywhere: it leaves the chain and the cache.
    pub fn remove(&mut self, id: &str)
        ensures
            final(self).spec_chain() == old(self).spec_chain().filter(
                |x: Seq<char>| x != id@,
            ),
            final(self).spec_cache() == old(self).spec_cache().filter(
                |c: CheckpointV| c.id != id@,
            ),
    {
        let n = self.chain.len();
        let mut new_chain: Vec<String> = Vec::new();
        let mut i: usize = 0;
        proof {
            reveal(Seq::filter);
            assert(self.spec_chain().take(0).filter(|x: Seq<char>| x != id@) =~= Seq::<
                Seq<char>,
            >::empty());
        }
        while i < n
            invariant
                i <= n,
                n == self.chain@.len(),
                new_chain.deep_view() =~= self.spec_chain().take(i as int).filter(
                    |x: Seq<char>| x != id@,
                ),
            decreases n - i,
        {
            let ghost taken = self.spec_chain().take(i as int + 1);
            proof {
                reveal(Seq::filter);
                assert(taken.drop_last() =~= self.spec_chain().take(i as int));
                assert(taken.last() == self.spec_chain()[i as int]);
                assert(self.spec_chain()[i as int] == self.chain@[i as int]@);
            }
            if !str_eq(self.chain[i].as_str(), id) {
                let c = self.chain[i].clone();
                let ghost prev = new_chain.deep_view();
                new_chain.push(c);
                proof {
                    reveal(Seq::filter);
                    assert(new_chain.deep_view() =~= prev.push(self.spec_chain()[i as int]));
                    assert(taken.filter(|x: Seq<char>| x != id@) == taken.drop_last().filter(
                        |x: Seq<char>| x != id@,
                    ).push(taken.last()));
                    assert(new_chain.deep_view() =~= taken.filter(|x: Seq<char>| x != id@));
                }
            } else {
                proof {
                    reveal(Seq::filter);
                    assert(taken.filter(|x: Seq<char>| x != id@) == taken.drop_last().filter(
                        |x: Seq<char>| x != id@,
                    ));
                    assert(new_chain.deep_view() =~= taken.filter(|x: Seq<char>| x != id@));
                }
            }
            i += 1;
        }
        let m = self.cache.len();
        let mut new_cache: Vec<Checkpoint> = Vec::new();
        let mut j: usize = 0;
        proof {
            reveal(Seq::filter);
            assert(self.spec_cache().take(0).filter(|c2: CheckpointV| c2.id != id@) =~= Seq::<
                CheckpointV,
            >::empty());
        }
        while j < m
            invariant
                j <= m,
                m == self.cache@.len(),
                new_cache.deep_view() =~= self.spec_cache().take(j as int).filter(
                    |c: CheckpointV| c.id != id@,
                ),
            decreases m - j,
        {
            let ghost taken = self.spec_cache().take(j as int + 1);
            proof {
                reveal(Seq::filter);
                assert(taken.drop_last() =~= self.spec_cache().take(j as int));
                assert(taken.last() == self.spec_cache()[j as int]);
                assert(self.spec_cache()[j as int] == self.cache@[j as int]@);
            }
            if !str_eq(self.cache[j].id.as_str(), id) {
                let c = self.cache[j].clone();
                let ghost prev = new_cache.deep_view();
                new_cache.push(c);
                proof {
                    reveal(Seq::filter);
                    assert(new_cache.deep_view() =~= prev.push(self.spec_cache()[j as int]));
                    assert(taken.filter(|c2: CheckpointV| c2.id != id@) == taken.drop_last().filter(
                        |c2: CheckpointV| c2.id != id@,
                    ).push(taken.last()));
                    assert(new_cache.deep_view() =~= taken.filter(|c2: CheckpointV| c2.id != id@));
                }
            } else {
                proof {
                    reveal(Seq::filter);
                    assert(taken.filter(|c2: CheckpointV| c2.id != id@) == taken.drop_last().filter(
                        |c2: CheckpointV| c2.id != id@,
                    ));
                    assert(new_cache.deep_view() =~= taken.filter(|c2: CheckpointV| c2.id != id@));
                }
            }
            j += 1;
        }
        self.chain = new_chain;
        self.cache = new_cache;
        proof {
            assert(old(self).spec_chain().take(n as int) =~= old(self).spec_chain());
            assert(old(self).spec_cache().take(m as int) =~= old(self).spec_cache());
        }
    }

    /// The oldest ids that pruning to `keep_count` entries must delete:
    /// everything but the newest `keep_count` ids, oldest first.
    pub fn prune_plan(&self, keep_count: usize) -> (r: Vec<String>)
        ensures
            self.spec_chain().len() > keep_count ==> r.deep_view() == self.spec_chain().take(
                self.spec_chain().len() - keep_count,
            ),
            self.spec_chain().len() <= keep_count ==> r.deep_view() =~= Seq::<Seq<char>>::empty(),
    {
        let n = self.chain.len();
        let mut r: Vec<String> = Vec::new();
        if n <= keep_count {
            return r;
        }
        let excess = n - keep_count;
        let mut i: usize = 0;
        while i < excess
            invariant
                i <= excess,
                excess <= n,
                n == self.chain@.len(),
                r@.len() == i,
                forall|k: int|
                    0 <= k < i ==> #[trigger] r.deep_view()[k] == self.spec_chain()[k],
            decreases excess - i,
        {
            let c = self.chain[i].clone();
            let ghost prev = r.deep_view();
            r.push(c);
            proof {
                assert(self.spec_chain()[i as int] == self.chain@[i as int]@);
                assert forall|k: int| 0 <= k < i + 1 implies #[trigger] r.deep_view()[k]
                    == self.spec_chain()[k] by {
                    if k < i {
                        assert(r.deep_view()[k] == prev[k]);
                    } else {
                        assert(r.deep_view()[k] == c@);
                    }
                }
            }
            i += 1;
        }
        proof {
            assert(r.deep_view() =~= self.spec_chain().take(excess as int));
        }
        r
    }

    /// Forgets everything.
    pub fn clear(&mut self)
        ensures
            final(self).spec_chain() =~= Seq::<Seq<char>>::empty(),
            final(self).spec_cache() =~= Seq::<CheckpointV>::empty(),
    {
        self.chain.clear();
        self.cache.clear();
    }
}

} // verus!
