//! The manager: the fixed set of shards, and routing onto them.

use vstd::prelude::*;
use crate::error::{InvalidAddress, SubmitError};
use crate::router::{shard_of, spec_shard_of};
use crate::shard::{spec_close, spec_fresh, spec_ingest, Phase, Shard, ShardView, BATCH_THRESHOLD};
use crate::types::Transaction;

verus! {

/// Owns the shards. Shard `i` stands at place `i`.
#[derive(Clone, Debug)]
pub struct ShardManager {
    shards: Vec<Shard>,
}

/// The views of a sequence of shards.
pub open spec fn shard_views(shards: Seq<Shard>) -> Seq<ShardView> {
    shards.map_values(|s: Shard| s@)
}

/// What `submit` answers for a transaction that routes as `target` says.
pub open spec fn spec_submit_result(shards: Seq<ShardView>, target: Option<u32>) -> Result<
    (),
    SubmitError,
> {
    match target {
        None => Err(SubmitError::InvalidAddress),
        Some(id) => if shards[id as int].phase == Phase::Terminal {
            Err(SubmitError::Closed)
        } else {
            Ok(())
        },
    }
}

/// The shards after `tx` has been submitted and routed as `target` says.
pub open spec fn spec_submit(shards: Seq<ShardView>, target: Option<u32>, tx: Transaction) -> Seq<
    ShardView,
> {
    match target {
        None => shards,
        Some(id) => shards.update(id as int, spec_ingest(shards[id as int], tx)),
    }
}

impl View for ShardManager {
    type V = Seq<ShardView>;

    closed spec fn view(&self) -> Seq<ShardView> {
        shard_views(self.shards@)
    }
}

impl ShardManager {
    /// Every shard satisfies its own invariant.
    pub closed spec fn all_well_formed(&self) -> bool {
        forall|i: int| 0 <= i < self.shards@.len() ==> (#[trigger] self.shards@[i]).well_formed()
    }

    /// The manager's invariant: at most `u32::MAX` shards, each well formed,
    /// each carrying its place as its id.
    pub open spec fn well_formed(&self) -> bool {
        &&& self@.len() <= u32::MAX
        &&& self.all_well_formed()
        &&& forall|i: int| 0 <= i < self@.len() ==> (#[trigger] self@[i]).id == i
    }

    /// A manager of `shard_count` fresh shards with ids from zero.
    pub fn new(shard_count: u32) -> (manager: ShardManager)
        ensures
            manager.well_formed(),
            manager@.len() == shard_count,
            forall|i: int|
                0 <= i < shard_count ==> #[trigger] manager@[i] == spec_fresh(
                    i as u32,
                    BATCH_THRESHOLD as nat,
                ),
    {
        let mut shards: Vec<Shard> = Vec::new();
        let mut i: u32 = 0;
        while i < shard_count
            invariant
                i <= shard_count,
                shards@.len() == i,
                forall|k: int| 0 <= k < i ==> (#[trigger] shards@[k]).well_formed(),
                forall|k: int|
                    0 <= k < i ==> (#[trigger] shards@[k])@ == spec_fresh(
                        k as u32,
                        BATCH_THRESHOLD as nat,
                    ),
            decreases shard_count - i,
        {
            shards.push(Shard::new(i));
            i += 1;
        }
        let manager = ShardManager { shards };
        assert forall|k: int| 0 <= k < shard_count implies #[trigger] manager@[k] == spec_fresh(
            k as u32,
            BATCH_THRESHOLD as nat,
        ) by {
            assert(manager@[k] == manager.shards@[k]@);
        }
        manager
    }

    /// The number of shards.
    pub fn shard_count(&self) -> (count: u32)
        requires
            self.well_formed(),
        ensures
            count == self@.len(),
    {
        self.shards.len() as u32
    }

    /// The id of the shard that owns `address`.
    ///
    /// Fails exactly when the address is empty or there is no shard.
    pub fn calculate_shard_id(&self, address: &str) -> (r: Result<u32, InvalidAddress>)
        requires
            self.well_formed(),
        ensures
            r == match spec_shard_of(address@, self@.len() as u32) {
                Some(id) => Ok::<u32, InvalidAddress>(id),
                None => Err::<u32, InvalidAddress>(InvalidAddress),
            },
            r matches Ok(id) ==> id < self@.len(),
    {
        shard_of(address, self.shard_count())
    }

    /// The shard that owns `address`, for inspection.
    pub fn get_shard(&self, address: &str) -> (r: Result<&Shard, InvalidAddress>)
        requires
            self.well_formed(),
        ensures
            match spec_shard_of(address@, self@.len() as u32) {
                Some(id) => r matches Ok(shard) && shard@ == self@[id as int] && shard@.id == id
                    && shard.well_formed(),
                None => r is Err,
            },
    {
        match self.calculate_shard_id(address) {
            Ok(id) => {
                let shard = &self.shards[id as usize];
                assert(self@[id as int] == self.shards@[id as int]@);
                Ok(shard)
            },
            Err(e) => Err(e),
        }
    }

    /// The shard with the given id, for inspection, if there is one.
    pub fn shard(&self, id: u32) -> (r: Option<&Shard>)
        requires
            self.well_formed(),
        ensures
            match r {
                Some(shard) => id < self@.len() && shard@ == self@[id as int]
                    && shard.well_formed(),
                None => id >= self@.len(),
            },
    {
        if (id as usize) < self.shards.len() {
            let shard = &self.shards[id as usize];
            assert(self@[id as int] == self.shards@[id as int]@);
            Some(shard)
        } else {
            None
        }
    }

    /// Routes `tx` by its sender's address and hands it to the shard that
    /// owns that address. No other shard changes.
    ///
    /// Fails with `InvalidAddress` exactly when the sender's address cannot
    /// be routed, and with `Closed` exactly when it can and its shard is
    /// terminal; either way nothing changes.
    pub fn submit(&mut self, tx: Transaction) -> (r: Result<(), SubmitError>)
        requires
            old(self).well_formed(),
        ensures
            final(self).well_formed(),
            final(self)@.len() == old(self)@.len(),
            r == spec_submit_result(old(self)@, spec_shard_of(tx.from@, old(self)@.len() as u32)),
            final(self)@ == spec_submit(
                old(self)@,
                spec_shard_of(tx.from@, old(self)@.len() as u32),
                tx,
            ),
            r is Err ==> final(self)@ == old(self)@,
    {
        let id: u32 = match self.calculate_shard_id(tx.from.as_str()) {
            Ok(id) => id,
            Err(_) => {
                return Err(SubmitError::InvalidAddress);
            },
        };
        let ghost before = self.shards@;
        assert(before[id as int].well_formed());
        assert(self@[id as int] == before[id as int]@);
        let mut shard = self.shards.remove(id as usize);
        let r = shard.ingest(tx);
        self.shards.insert(id as usize, shard);
        proof {
            assert(self.shards@ =~= before.update(id as int, shard));
            assert(self@ =~= old(self)@.update(id as int, shard@));
            assert forall|i: int| 0 <= i < self.shards@.len() implies (
            #[trigger] self.shards@[i]).well_formed() by {
                if i != id {
                    assert(before[i].well_formed());
                }
            }
            assert forall|i: int| 0 <= i < self@.len() implies (#[trigger] self@[i]).id == i by {
                if i != id {
                    assert(old(self)@[i].id == i);
                }
            }
            if r is Err {
                assert(self@ =~= old(self)@);
            }
        }
        match r {
            Ok(_) => Ok(()),
            Err(e) => Err(e),
        }
    }

    /// Closes every shard: each seals what it has pending and is terminal.
    pub fn close_all(&mut self)
        requires
            old(self).well_formed(),
        ensures
            final(self).well_formed(),
            final(self)@.len() == old(self)@.len(),
            forall|i: int|
                0 <= i < old(self)@.len() ==> #[trigger] final(self)@[i] == spec_close(
                    old(self)@[i],
                ),
    {
        let ghost before = self.shards@;
        let mut closed: Vec<Shard> = Vec::new();
        core::mem::swap(&mut self.shards, &mut closed);
        let mut i: usize = 0;
        while i < closed.len()
            invariant
                i <= closed.len(),
                closed@.len() == before.len(),
                forall|k: int| 0 <= k < closed@.len() ==> (#[trigger] closed@[k]).well_formed(),
                forall|k: int| 0 <= k < i ==> (#[trigger] closed@[k])@ == spec_close(before[k]@),
                forall|k: int| i <= k < closed@.len() ==> (#[trigger] closed@[k]) == before[k],
            decreases closed.len() - i,
        {
            let ghost prior = closed@;
            let mut shard = closed.remove(i);
            let _ = shard.close();
            closed.insert(i, shard);
            assert(closed@ =~= prior.update(i as int, shard));
            i += 1;
        }
        self.shards = closed;
        proof {
            assert forall|k: int| 0 <= k < old(self)@.len() implies #[trigger] self@[k]
                == spec_close(old(self)@[k]) by {
                assert(self@[k] == self.shards@[k]@);
                assert(old(self)@[k] == before[k]@);
            }
            assert forall|k: int| 0 <= k < self@.len() implies (#[trigger] self@[k]).id == k by {
                assert(self@[k] == spec_close(old(self)@[k]));
                assert(old(self)@[k].id == k);
            }
        }
    }

    /// Gives up the shards, in id order, to whoever will run them.
    pub fn into_shards(self) -> (shards: Vec<Shard>)
        requires
            self.well_formed(),
        ensures
            shard_views(shards@) == self@,
            forall|i: int| 0 <= i < shards@.len() ==> (#[trigger] shards@[i]).well_formed(),
    {
        self.shards
    }
}

} // verus!
